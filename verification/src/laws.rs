use vstd::prelude::*;
use vstd::arithmetic::mul::{lemma_mul_inequality, lemma_mul_is_distributive_add_other_way, lemma_mul_nonnegative};
use crate::cmd::{
    apply_op, apply_ops, spec_byte_ranges, spec_op_data, spec_op_kind, spec_partition_image,
    spec_run, SpecPartitionOutput,
};
use crate::extents::{
    blocks_overlap, extent_fields_ok, extent_nonempty, extents_complete, extents_disjoint,
    extents_no_overflow, flat_extents,
};
use crate::hashing::sha256_of;
use crate::manifest::{Extent, SpecInstallOperation, SpecPartitionUpdate};
use crate::writer::{rv, scatter, total_len, zeros};
use crate::bulk::overwrite;

verus! {

// The library's general laws, each proved from the contracts the modules
// state. They are part of the library's statement of itself: a reader sees
// here what holds of every extraction, not only of the tested ones.

/// For extents the validator accepts, the byte ranges of any two distinct
/// non-empty extents are disjoint: one ends at or before the other starts,
/// measured in bytes at any block size.
pub proof fn lemma_accepted_extents_bytes_disjoint(es: Seq<Extent>, bs: u32, i: int, j: int)
    requires
        extents_complete(es),
        extents_no_overflow(es),
        extents_disjoint(es),
        0 <= i < es.len(),
        0 <= j < es.len(),
        i != j,
        extent_nonempty(es[i]),
        extent_nonempty(es[j]),
        bs >= 1,
    ensures
        es[i].start_block.unwrap() * bs + es[i].num_blocks.unwrap() * bs <= es[
            j
        ].start_block.unwrap() * bs || es[j].start_block.unwrap() * bs + es[
            j
        ].num_blocks.unwrap() * bs <= es[i].start_block.unwrap() * bs,
{
    let si = es[i].start_block.unwrap() as int;
    let ni = es[i].num_blocks.unwrap() as int;
    let sj = es[j].start_block.unwrap() as int;
    let nj = es[j].num_blocks.unwrap() as int;
    assert(!blocks_overlap(es[i], es[j]));
    if si + ni <= sj {
        lemma_mul_inequality(si + ni, sj, bs as int);
        lemma_mul_is_distributive_add_other_way(bs as int, si, ni);
    } else {
        assert(sj + nj <= si);
        lemma_mul_inequality(sj + nj, si, bs as int);
        lemma_mul_is_distributive_add_other_way(bs as int, sj, nj);
    }
}

/// For every successfully extracted partition with a manifest hash, while
/// verification is on, the output image's SHA-256 equals the manifest hash.
pub proof fn lemma_partition_hash_verified(
    p: SpecPartitionUpdate,
    data: Seq<u8>,
    bs: u32,
    strict: bool,
    sanity: bool,
    img: Seq<u8>,
)
    requires
        spec_partition_image(p, data, bs, true, strict, sanity) == Some(img),
        p.new_partition_info is Some,
        p.new_partition_info.unwrap().hash is Some,
    ensures
        sha256_of(img) == p.new_partition_info.unwrap().hash.unwrap(),
{
}

/// For every accepted operation that consumes payload data and declares an
/// input hash, while verification is on, the input bytes' SHA-256 equals the
/// declared hash.
pub proof fn lemma_op_input_hash_verified(
    sink: Seq<u8>,
    op: SpecInstallOperation,
    data: Seq<u8>,
    bs: u32,
)
    requires
        apply_op(sink, op, data, bs, true) is Some,
        op.op_type is Some,
        spec_op_kind(op.op_type.unwrap()) is Replace || spec_op_kind(op.op_type.unwrap())
            is ReplaceBz || spec_op_kind(op.op_type.unwrap()) is ReplaceXz,
        op.data_sha256_hash is Some,
    ensures
        spec_op_data(op, data) is Some,
        sha256_of(spec_op_data(op, data).unwrap()) == op.data_sha256_hash.unwrap(),
{
}

/// One operation never changes the image's length.
pub proof fn lemma_apply_op_len(
    sink: Seq<u8>,
    op: SpecInstallOperation,
    data: Seq<u8>,
    bs: u32,
    verify: bool,
)
    requires
        apply_op(sink, op, data, bs, verify) is Some,
    ensures
        apply_op(sink, op, data, bs, verify).unwrap().len() == sink.len(),
{
    if op.op_type is Some {
        let kind = spec_op_kind(op.op_type.unwrap());
        match spec_byte_ranges(op.dst_extents, bs, sink.len() as int) {
            None => {},
            Some(brs) => {
                let rs = rv(brs);
                if kind is Zero || kind is Discard {
                    crate::writer::lemma_scatter_len(sink, rs, zeros(total_len(rs)));
                } else if kind is Replace || kind is ReplaceBz || kind is ReplaceXz {
                    match spec_op_data(op, data) {
                        None => {},
                        Some(raw) => {
                            let stream = if kind is Replace {
                                Some(raw)
                            } else if kind is ReplaceBz {
                                crate::compress::bz_inflate(raw)
                            } else {
                                crate::compress::xz_inflate(raw)
                            };
                            match stream {
                                None => {},
                                Some(d) => {
                                    crate::writer::lemma_scatter_len(sink, rs, d);
                                },
                            }
                        },
                    }
                }
            },
        }
    }
}

/// A run of operations never changes the image's length.
pub proof fn lemma_apply_ops_len(
    sink: Seq<u8>,
    ops: Seq<SpecInstallOperation>,
    data: Seq<u8>,
    bs: u32,
    verify: bool,
)
    requires
        apply_ops(sink, ops, data, bs, verify) is Some,
    ensures
        apply_ops(sink, ops, data, bs, verify).unwrap().len() == sink.len(),
    decreases ops.len(),
{
    if ops.len() > 0 {
        lemma_apply_op_len(sink, ops[0], data, bs, verify);
        lemma_apply_ops_len(
            apply_op(sink, ops[0], data, bs, verify).unwrap(),
            ops.skip(1),
            data,
            bs,
            verify,
        );
    }
}

/// Every output image is exactly the declared partition size.
pub proof fn lemma_output_size(
    p: SpecPartitionUpdate,
    data: Seq<u8>,
    bs: u32,
    verify: bool,
    strict: bool,
    sanity: bool,
    img: Seq<u8>,
)
    requires
        spec_partition_image(p, data, bs, verify, strict, sanity) == Some(img),
    ensures
        p.new_partition_info is Some,
        p.new_partition_info.unwrap().size is Some,
        img.len() == p.new_partition_info.unwrap().size.unwrap(),
{
    let size = p.new_partition_info.unwrap().size.unwrap();
    lemma_apply_ops_len(zeros(size as int), p.operations, data, bs, verify);
}

/// Extraction is a function of its inputs: the same options applied to the
/// same payload bytes denote the same outputs, so repeating an extraction
/// into a new directory yields byte-identical images.
pub proof fn lemma_repeat_extraction(
    names: Seq<Seq<u8>>,
    threads: Option<usize>,
    skipv: bool,
    strict: bool,
    sanity: bool,
    print: bool,
    bytes: Seq<u8>,
    r1: Option<Seq<SpecPartitionOutput>>,
    r2: Option<Seq<SpecPartitionOutput>>,
)
    requires
        r1 == spec_run(names, threads, skipv, strict, sanity, print, bytes),
        r2 == spec_run(names, threads, skipv, strict, sanity, print, bytes),
    ensures
        r1 == r2,
{
}

/// Whether some range of `rs` covers position `k`.
pub open spec fn covered(rs: Seq<(int, int)>, k: int) -> bool {
    exists|m: int| 0 <= m < rs.len() && (#[trigger] rs[m]).0 <= k < rs[m].0 + rs[m].1
}

/// Every range's length is non-negative.
pub open spec fn ranges_wf(rs: Seq<(int, int)>) -> bool {
    forall|m: int| 0 <= m < rs.len() ==> (#[trigger] rs[m]).1 >= 0
}

/// A position no range covers keeps its byte.
pub proof fn lemma_scatter_untouched(s: Seq<u8>, rs: Seq<(int, int)>, d: Seq<u8>, k: int)
    requires
        0 <= k < s.len(),
        ranges_wf(rs),
        !covered(rs, k),
    ensures
        scatter(s, rs, d)[k] == s[k],
    decreases rs.len(),
{
    if rs.len() > 0 {
        let take = crate::writer::imin(rs[0].1, d.len() as int);
        let s2 = overwrite(s, rs[0].0, d.take(take));
        assert(!(rs[0].0 <= k < rs[0].0 + rs[0].1));
        assert(d.take(take).len() == take);
        assert(s2[k] == s[k]);
        assert forall|m: int|
            0 <= m < rs.skip(1).len() implies !((#[trigger] rs.skip(1)[m]).0 <= k < rs.skip(
            1,
        )[m].0 + rs.skip(1)[m].1) by {
            assert(rs.skip(1)[m] == rs[m + 1]);
        }
        assert forall|m: int| 0 <= m < rs.skip(1).len() implies (#[trigger] rs.skip(1)[m]).1
            >= 0 by {
            assert(rs.skip(1)[m] == rs[m + 1]);
        }
        lemma_scatter_untouched(s2, rs.skip(1), d.skip(take), k);
    }
}

/// Which byte lands at a position depends only on the ranges, the stream, and
/// the sink's byte already there — never on the rest of the sink.
pub proof fn lemma_scatter_pointwise(
    s1: Seq<u8>,
    s2: Seq<u8>,
    rs: Seq<(int, int)>,
    d: Seq<u8>,
    k: int,
)
    requires
        s1.len() == s2.len(),
        0 <= k < s1.len(),
        s1[k] == s2[k],
    ensures
        scatter(s1, rs, d)[k] == scatter(s2, rs, d)[k],
    decreases rs.len(),
{
    if rs.len() > 0 {
        let take = crate::writer::imin(rs[0].1, d.len() as int);
        let o1 = overwrite(s1, rs[0].0, d.take(take));
        let o2 = overwrite(s2, rs[0].0, d.take(take));
        assert(o1[k] == o2[k]);
        lemma_scatter_pointwise(o1, o2, rs.skip(1), d.skip(take), k);
    }
}

/// Two writes into ranges that share no position may run in either order: the
/// final image is identical. Operations of one partition have pairwise
/// disjoint destination extents, so any permutation of their execution leaves
/// the same bytes.
pub proof fn lemma_scatter_commutes(
    s: Seq<u8>,
    rs1: Seq<(int, int)>,
    d1: Seq<u8>,
    rs2: Seq<(int, int)>,
    d2: Seq<u8>,
)
    requires
        ranges_wf(rs1),
        ranges_wf(rs2),
        forall|k: int| !(covered(rs1, k) && covered(rs2, k)),
    ensures
        scatter(scatter(s, rs1, d1), rs2, d2) == scatter(scatter(s, rs2, d2), rs1, d1),
{
    let a1 = scatter(s, rs1, d1);
    let a2 = scatter(s, rs2, d2);
    let c1 = scatter(a1, rs2, d2);
    let c2 = scatter(a2, rs1, d1);
    crate::writer::lemma_scatter_len(s, rs1, d1);
    crate::writer::lemma_scatter_len(s, rs2, d2);
    crate::writer::lemma_scatter_len(a1, rs2, d2);
    crate::writer::lemma_scatter_len(a2, rs1, d1);
    assert forall|k: int| 0 <= k < s.len() implies c1[k] == c2[k] by {
        if covered(rs2, k) {
            assert(!covered(rs1, k));
            lemma_scatter_untouched(a2, rs1, d1, k);
            lemma_scatter_untouched(s, rs1, d1, k);
            lemma_scatter_pointwise(a1, s, rs2, d2, k);
        } else {
            lemma_scatter_untouched(a1, rs2, d2, k);
            lemma_scatter_untouched(s, rs2, d2, k);
            lemma_scatter_pointwise(a2, s, rs1, d1, k);
        }
    }
    assert(c1 =~= c2);
}

/// The byte length all of a list's extents address: the sum of each extent's
/// blocks, scaled to bytes.
pub open spec fn extents_byte_len(es: Seq<Extent>, bs: u32) -> int
    decreases es.len(),
{
    if es.len() == 0 {
        0
    } else {
        (if extent_fields_ok(es[0]) {
            es[0].num_blocks.unwrap() * bs
        } else {
            0
        }) + extents_byte_len(es.skip(1), bs)
    }
}

/// The capacity the writer sees for one operation equals the sum of the
/// operation's destination extent lengths in bytes: together with the
/// writer's contract, the bytes written for each operation fill exactly that
/// capacity (up to the final block's padding), so the total written across a
/// partition's operations is the sum of all destination extent lengths.
pub proof fn lemma_ranges_capacity(es: Seq<Extent>, bs: u32, plen: int)
    requires
        spec_byte_ranges(es, bs, plen) is Some,
        0 <= plen <= usize::MAX,
    ensures
        total_len(rv(spec_byte_ranges(es, bs, plen).unwrap())) == extents_byte_len(es, bs),
    decreases es.len(),
{
    if es.len() > 0 {
        let e = es[0];
        if extent_fields_ok(e) {
            lemma_ranges_capacity(es.skip(1), bs, plen);
            if e.num_blocks.unwrap() != 0 {
                let off = e.start_block.unwrap() * bs;
                let len = e.num_blocks.unwrap() * bs;
                lemma_mul_nonnegative(e.start_block.unwrap() as int, bs as int);
                lemma_mul_nonnegative(e.num_blocks.unwrap() as int, bs as int);
                let head = crate::writer::ByteRange { offset: off as usize, len: len as usize };
                let rest = spec_byte_ranges(es.skip(1), bs, plen).unwrap();
                assert(rv(seq![head] + rest) =~= seq![(off as int, len as int)] + rv(rest));
                assert((seq![(off as int, len as int)] + rv(rest)).skip(1) =~= rv(rest));
            }
        }
    }
}

/// The capacity every operation of a partition gets from the writer, summed
/// in operation order.
pub open spec fn ops_capacity(ops: Seq<SpecInstallOperation>, bs: u32, plen: int) -> int
    decreases ops.len(),
{
    if ops.len() == 0 {
        0
    } else {
        total_len(rv(spec_byte_ranges(ops[0].dst_extents, bs, plen).unwrap())) + ops_capacity(
            ops.skip(1),
            bs,
            plen,
        )
    }
}

proof fn lemma_extents_byte_len_concat(a: Seq<Extent>, b: Seq<Extent>, bs: u32)
    ensures
        extents_byte_len(a + b, bs) == extents_byte_len(a, bs) + extents_byte_len(b, bs),
    decreases a.len(),
{
    if a.len() == 0 {
        assert(a + b =~= b);
    } else {
        assert((a + b)[0] == a[0]);
        assert((a + b).skip(1) =~= a.skip(1) + b);
        lemma_extents_byte_len_concat(a.skip(1), b, bs);
    }
}

/// Total bytes written to a partition across all operations: when every
/// operation's destination ranges are accepted, the operations' writer
/// capacities sum to the byte length of all destination extents together.
/// Each accepted operation fills exactly its capacity — a `Replace*` stream
/// may stop short of it only inside its final block, whose remainder stays
/// zero — so when the extents' total equals the declared size, the partition
/// is covered bytewise.
pub proof fn lemma_total_write_capacity(ops: Seq<SpecInstallOperation>, bs: u32, plen: int)
    requires
        0 <= plen <= usize::MAX,
        forall|k: int|
            0 <= k < ops.len() ==> spec_byte_ranges(
                (#[trigger] ops[k]).dst_extents,
                bs,
                plen,
            ) is Some,
    ensures
        ops_capacity(ops, bs, plen) == extents_byte_len(flat_extents(ops), bs),
    decreases ops.len(),
{
    if ops.len() == 0 {
        assert(flat_extents(ops) =~= Seq::<Extent>::empty());
    } else {
        assert(ops[0] == ops.skip(0)[0]);
        lemma_ranges_capacity(ops[0].dst_extents, bs, plen);
        assert forall|k: int|
            0 <= k < ops.skip(1).len() implies spec_byte_ranges(
            (#[trigger] ops.skip(1)[k]).dst_extents,
            bs,
            plen,
        ) is Some by {
            assert(ops.skip(1)[k] == ops[k + 1]);
        }
        lemma_total_write_capacity(ops.skip(1), bs, plen);
        lemma_extents_byte_len_concat(ops[0].dst_extents, flat_extents(ops.skip(1)), bs);
    }
}

/// The stream an accepted operation writes across its ranges `rs`: zeros for
/// a zero-fill type, otherwise its (possibly decompressed) input bytes.
pub open spec fn op_write_stream(
    op: SpecInstallOperation,
    data: Seq<u8>,
    rs: Seq<(int, int)>,
) -> Option<Seq<u8>> {
    let kind = spec_op_kind(op.op_type.unwrap());
    if kind is Zero || kind is Discard {
        Some(zeros(total_len(rs)))
    } else {
        match spec_op_data(op, data) {
            None => None,
            Some(raw) => if kind is Replace {
                Some(raw)
            } else if kind is ReplaceBz {
                crate::compress::bz_inflate(raw)
            } else {
                crate::compress::xz_inflate(raw)
            },
        }
    }
}

/// An accepted operation's effect is one scatter of its stream across its
/// derived ranges.
proof fn lemma_apply_op_shape(
    sink: Seq<u8>,
    op: SpecInstallOperation,
    data: Seq<u8>,
    bs: u32,
    verify: bool,
)
    requires
        apply_op(sink, op, data, bs, verify) is Some,
    ensures
        op.op_type is Some,
        spec_byte_ranges(op.dst_extents, bs, sink.len() as int) is Some,
        op_write_stream(
            op,
            data,
            rv(spec_byte_ranges(op.dst_extents, bs, sink.len() as int).unwrap()),
        ) is Some,
        apply_op(sink, op, data, bs, verify).unwrap() == scatter(
            sink,
            rv(spec_byte_ranges(op.dst_extents, bs, sink.len() as int).unwrap()),
            op_write_stream(
                op,
                data,
                rv(spec_byte_ranges(op.dst_extents, bs, sink.len() as int).unwrap()),
            ).unwrap(),
        ),
{
}

/// Each derived byte range lies within one non-empty extent's byte range.
proof fn lemma_byte_ranges_cover(es: Seq<Extent>, bs: u32, plen: int, k: int)
    requires
        0 <= plen <= usize::MAX,
        spec_byte_ranges(es, bs, plen) is Some,
        covered(rv(spec_byte_ranges(es, bs, plen).unwrap()), k),
    ensures
        exists|i: int|
            0 <= i < es.len() && extent_fields_ok(#[trigger] es[i]) && extent_nonempty(es[i])
                && es[i].start_block.unwrap() * bs <= k < es[i].start_block.unwrap() * bs + es[
                i
            ].num_blocks.unwrap() * bs,
    decreases es.len(),
{
    let e = es[0];
    if extent_fields_ok(e) && e.num_blocks.unwrap() != 0 {
        let off = e.start_block.unwrap() * bs;
        let len = e.num_blocks.unwrap() * bs;
        lemma_mul_nonnegative(e.start_block.unwrap() as int, bs as int);
        lemma_mul_nonnegative(e.num_blocks.unwrap() as int, bs as int);
        let head = crate::writer::ByteRange { offset: off as usize, len: len as usize };
        let rest = spec_byte_ranges(es.skip(1), bs, plen).unwrap();
        let rs = rv(seq![head] + rest);
        assert(rs =~= seq![(off, len)] + rv(rest));
        let m = choose|m: int| 0 <= m < rs.len() && (#[trigger] rs[m]).0 <= k < rs[m].0 + rs[m].1;
        if m == 0 {
            assert(es[0].start_block.unwrap() * bs <= k < es[0].start_block.unwrap() * bs + es[
                0
            ].num_blocks.unwrap() * bs);
        } else {
            assert(rs[m] == rv(rest)[m - 1]);
            assert(covered(rv(rest), k));
            lemma_byte_ranges_cover(es.skip(1), bs, plen, k);
            let i0 = choose|i: int|
                0 <= i < es.skip(1).len() && extent_fields_ok(#[trigger] es.skip(1)[i])
                    && extent_nonempty(es.skip(1)[i]) && es.skip(1)[i].start_block.unwrap() * bs
                    <= k < es.skip(1)[i].start_block.unwrap() * bs + es.skip(
                    1,
                )[i].num_blocks.unwrap() * bs;
            assert(es.skip(1)[i0] == es[i0 + 1]);
            assert(extent_fields_ok(es[i0 + 1]) && extent_nonempty(es[i0 + 1]) && es[
                i0 + 1
            ].start_block.unwrap() * bs <= k < es[i0 + 1].start_block.unwrap() * bs + es[
                i0 + 1
            ].num_blocks.unwrap() * bs);
        }
    } else {
        assert(extent_fields_ok(e));
        assert(rv(spec_byte_ranges(es, bs, plen).unwrap()) == rv(
            spec_byte_ranges(es.skip(1), bs, plen).unwrap(),
        ));
        lemma_byte_ranges_cover(es.skip(1), bs, plen, k);
        let i0 = choose|i: int|
            0 <= i < es.skip(1).len() && extent_fields_ok(#[trigger] es.skip(1)[i])
                && extent_nonempty(es.skip(1)[i]) && es.skip(1)[i].start_block.unwrap() * bs <= k
                < es.skip(1)[i].start_block.unwrap() * bs + es.skip(1)[i].num_blocks.unwrap() * bs;
        assert(es.skip(1)[i0] == es[i0 + 1]);
        assert(extent_fields_ok(es[i0 + 1]) && extent_nonempty(es[i0 + 1]) && es[
            i0 + 1
        ].start_block.unwrap() * bs <= k < es[i0 + 1].start_block.unwrap() * bs + es[
            i0 + 1
        ].num_blocks.unwrap() * bs);
    }
}

/// Ranges derived from two operations whose extents are jointly disjoint
/// never cover a common position.
proof fn lemma_op_ranges_disjoint(
    a: SpecInstallOperation,
    b: SpecInstallOperation,
    bs: u32,
    plen: int,
    k: int,
)
    requires
        bs >= 1,
        0 <= plen <= usize::MAX,
        spec_byte_ranges(a.dst_extents, bs, plen) is Some,
        spec_byte_ranges(b.dst_extents, bs, plen) is Some,
        extents_complete(a.dst_extents + b.dst_extents),
        extents_no_overflow(a.dst_extents + b.dst_extents),
        extents_disjoint(a.dst_extents + b.dst_extents),
    ensures
        !(covered(rv(spec_byte_ranges(a.dst_extents, bs, plen).unwrap()), k) && covered(
            rv(spec_byte_ranges(b.dst_extents, bs, plen).unwrap()),
            k,
        )),
{
    if covered(rv(spec_byte_ranges(a.dst_extents, bs, plen).unwrap()), k) && covered(
        rv(spec_byte_ranges(b.dst_extents, bs, plen).unwrap()),
        k,
    ) {
        lemma_byte_ranges_cover(a.dst_extents, bs, plen, k);
        lemma_byte_ranges_cover(b.dst_extents, bs, plen, k);
        let es = a.dst_extents + b.dst_extents;
        let i = choose|i: int|
            0 <= i < a.dst_extents.len() && extent_fields_ok(#[trigger] a.dst_extents[i])
                && extent_nonempty(a.dst_extents[i]) && a.dst_extents[i].start_block.unwrap() * bs
                <= k < a.dst_extents[i].start_block.unwrap() * bs + a.dst_extents[
                i
            ].num_blocks.unwrap() * bs;
        let j = choose|j: int|
            0 <= j < b.dst_extents.len() && extent_fields_ok(#[trigger] b.dst_extents[j])
                && extent_nonempty(b.dst_extents[j]) && b.dst_extents[j].start_block.unwrap() * bs
                <= k < b.dst_extents[j].start_block.unwrap() * bs + b.dst_extents[
                j
            ].num_blocks.unwrap() * bs;
        assert(es[i] == a.dst_extents[i]);
        assert(es[a.dst_extents.len() + j] == b.dst_extents[j]);
        lemma_accepted_extents_bytes_disjoint(es, bs, i, a.dst_extents.len() + j);
    }
}

/// Two accepted operations whose destination extents are jointly disjoint —
/// as any two operations of one validated partition are — may run in either
/// order: both orders are accepted and give the same image. Any execution
/// schedule of a partition's operations is a chain of such swaps, so the
/// scheduling order never affects the output content.
pub proof fn lemma_apply_op_commutes(
    s: Seq<u8>,
    a: SpecInstallOperation,
    b: SpecInstallOperation,
    data: Seq<u8>,
    bs: u32,
    verify: bool,
)
    requires
        bs >= 1,
        s.len() <= usize::MAX,
        apply_op(s, a, data, bs, verify) is Some,
        apply_op(s, b, data, bs, verify) is Some,
        extents_complete(a.dst_extents + b.dst_extents),
        extents_no_overflow(a.dst_extents + b.dst_extents),
        extents_disjoint(a.dst_extents + b.dst_extents),
    ensures
        apply_op(apply_op(s, a, data, bs, verify).unwrap(), b, data, bs, verify) is Some,
        apply_op(apply_op(s, b, data, bs, verify).unwrap(), a, data, bs, verify) is Some,
        apply_op(apply_op(s, a, data, bs, verify).unwrap(), b, data, bs, verify).unwrap()
            == apply_op(apply_op(s, b, data, bs, verify).unwrap(), a, data, bs, verify).unwrap(),
{
    let plen = s.len() as int;
    lemma_apply_op_shape(s, a, data, bs, verify);
    lemma_apply_op_shape(s, b, data, bs, verify);
    lemma_apply_op_len(s, a, data, bs, verify);
    lemma_apply_op_len(s, b, data, bs, verify);
    let sa = apply_op(s, a, data, bs, verify).unwrap();
    let sb = apply_op(s, b, data, bs, verify).unwrap();
    let rsa = rv(spec_byte_ranges(a.dst_extents, bs, plen).unwrap());
    let rsb = rv(spec_byte_ranges(b.dst_extents, bs, plen).unwrap());
    let da = op_write_stream(a, data, rsa).unwrap();
    let db = op_write_stream(b, data, rsb).unwrap();
    assert(apply_op(sa, b, data, bs, verify) is Some);
    assert(apply_op(sb, a, data, bs, verify) is Some);
    lemma_apply_op_shape(sa, b, data, bs, verify);
    lemma_apply_op_shape(sb, a, data, bs, verify);
    crate::cmd::lemma_byte_ranges_in_bounds(a.dst_extents, bs, plen);
    crate::cmd::lemma_byte_ranges_in_bounds(b.dst_extents, bs, plen);
    assert(ranges_wf(rsa));
    assert(ranges_wf(rsb));
    assert forall|k: int| !(covered(rsa, k) && covered(rsb, k)) by {
        lemma_op_ranges_disjoint(a, b, bs, plen, k);
    }
    lemma_scatter_commutes(s, rsa, da, rsb, db);
}

} // verus!
