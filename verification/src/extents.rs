use vstd::prelude::*;
use crate::errors::{ExtractError, ManifestFault};
use crate::manifest::{Extent, InstallOperation, SpecInstallOperation};

verus! {

// Before any write begins, every destination extent of a partition must be
// proved disjoint from every other. The validator below flattens the
// partition's extents, rejects missing fields and block-arithmetic overflow,
// and then refuses any pair of non-empty ranges that share a block.

/// Both fields of the extent are present.
pub open spec fn extent_fields_ok(e: Extent) -> bool {
    e.start_block is Some && e.num_blocks is Some
}

/// `start_block + num_blocks` stays within 64 bits.
pub open spec fn extent_end_ok(e: Extent) -> bool {
    e.start_block.unwrap() + e.num_blocks.unwrap() <= u64::MAX
}

/// The extent covers at least one block.
pub open spec fn extent_nonempty(e: Extent) -> bool {
    e.num_blocks.unwrap() != 0
}

/// Two extents claim a common block; empty extents overlap nothing.
pub open spec fn blocks_overlap(a: Extent, b: Extent) -> bool {
    &&& extent_nonempty(a)
    &&& extent_nonempty(b)
    &&& a.start_block.unwrap() < b.start_block.unwrap() + b.num_blocks.unwrap()
    &&& b.start_block.unwrap() < a.start_block.unwrap() + a.num_blocks.unwrap()
}

/// Every extent names both of its fields.
pub open spec fn extents_complete(es: Seq<Extent>) -> bool {
    forall|k: int| 0 <= k < es.len() ==> extent_fields_ok(#[trigger] es[k])
}

/// No extent's end overflows.
pub open spec fn extents_no_overflow(es: Seq<Extent>) -> bool {
    forall|k: int| 0 <= k < es.len() ==> extent_end_ok(#[trigger] es[k])
}

/// All distinct extents are pairwise disjoint or empty.
pub open spec fn extents_disjoint(es: Seq<Extent>) -> bool {
    forall|i: int, j: int|
        0 <= i < es.len() && 0 <= j < es.len() && i != j ==> !blocks_overlap(
            #[trigger] es[i],
            #[trigger] es[j],
        )
}

/// The partition's destination extents, across all operations, in operation
/// order.
pub open spec fn flat_extents(ops: Seq<SpecInstallOperation>) -> Seq<Extent>
    decreases ops.len(),
{
    if ops.len() == 0 {
        Seq::empty()
    } else {
        ops[0].dst_extents + flat_extents(ops.skip(1))
    }
}

proof fn lemma_flat_extents_snoc(ops: Seq<SpecInstallOperation>, op: SpecInstallOperation)
    ensures
        flat_extents(ops.push(op)) == flat_extents(ops) + op.dst_extents,
    decreases ops.len(),
{
    if ops.len() == 0 {
        assert(ops.push(op).skip(1) =~= Seq::<SpecInstallOperation>::empty());
        assert(flat_extents(ops.push(op).skip(1)) =~= Seq::<Extent>::empty());
        assert(flat_extents(ops.push(op)) =~= flat_extents(ops) + op.dst_extents);
    } else {
        assert(ops.push(op).skip(1) =~= ops.skip(1).push(op));
        lemma_flat_extents_snoc(ops.skip(1), op);
        assert(flat_extents(ops.push(op)) =~= flat_extents(ops) + op.dst_extents);
    }
}

/// The flattened extents of the operations' views.
pub open spec fn ops_extents(ops: Seq<InstallOperation>) -> Seq<Extent> {
    flat_extents(ops.map_values(|o: InstallOperation| o@))
}

/// Collects every destination extent of every operation, in order.
fn flatten_extents(ops: &Vec<InstallOperation>) -> (r: Vec<Extent>)
    ensures
        r@ == ops_extents(ops@),
{
    let ghost opsv = ops@.map_values(|o: InstallOperation| o@);
    let mut out: Vec<Extent> = Vec::new();
    proof {
        assert(out@ =~= flat_extents(opsv.take(0)));
    }
    let n = ops.len();
    let mut pi: usize = 0;
    while pi < n
        invariant
            pi <= n == ops@.len(),
            opsv == ops@.map_values(|o: InstallOperation| o@),
            out@ == flat_extents(opsv.take(pi as int)),
        decreases n - pi,
    {
        let m = ops[pi].dst_extents.len();
        let mut ei: usize = 0;
        while ei < m
            invariant
                pi < n == ops@.len(),
                ei <= m == ops@[pi as int].dst_extents@.len(),
                opsv == ops@.map_values(|o: InstallOperation| o@),
                out@ == flat_extents(opsv.take(pi as int)) + opsv[pi as int].dst_extents.take(
                    ei as int,
                ),
            decreases m - ei,
        {
            out.push(ops[pi].dst_extents[ei]);
            proof {
                assert(out@ =~= flat_extents(opsv.take(pi as int))
                    + opsv[pi as int].dst_extents.take(ei as int + 1));
            }
            ei = ei + 1;
        }
        proof {
            lemma_flat_extents_snoc(opsv.take(pi as int), opsv[pi as int]);
            assert(opsv.take(pi as int).push(opsv[pi as int]) =~= opsv.take(pi as int + 1));
            assert(opsv[pi as int].dst_extents.take(m as int) =~= opsv[pi as int].dst_extents);
        }
        pi = pi + 1;
    }
    proof {
        assert(opsv.take(n as int) =~= opsv);
    }
    out
}

/// A non-empty extent's block range, tagged with its position in the
/// partition's flattened extent list.
#[derive(Clone, Copy, PartialEq, Eq, Structural, Debug)]
struct BlockRange {
    index: usize,
    start: u64,
    end: u64,
}

/// Proves all destination extents of one partition's operations pairwise
/// disjoint before any write begins: missing fields and end overflow are
/// refused, empty extents are skipped, and any two non-empty extents that
/// share a block are reported by their positions in the flattened list.
pub fn validate_partition_extents(ops: &Vec<InstallOperation>) -> (r: Result<(), ExtractError>)
    ensures
        r is Ok <==> extents_complete(ops_extents(ops@)) && extents_no_overflow(
            ops_extents(ops@),
        ) && extents_disjoint(ops_extents(ops@)),
        r == Err::<(), ExtractError>(ExtractError::InvalidManifest(ManifestFault::MissingField))
            ==> !extents_complete(ops_extents(ops@)),
        r == Err::<(), ExtractError>(ExtractError::InvalidManifest(ManifestFault::Overflow))
            ==> !extents_no_overflow(ops_extents(ops@)),
        match r {
            Err(ExtractError::InvalidManifest(ManifestFault::Overlap(i, j))) => i != j && i
                < ops_extents(ops@).len() && j < ops_extents(ops@).len() && blocks_overlap(
                ops_extents(ops@)[i as int],
                ops_extents(ops@)[j as int],
            ),
            _ => true,
        },
        r is Err ==> match r {
            Err(ExtractError::InvalidManifest(f)) => f is MissingField || f is Overflow
                || f is Overlap,
            _ => false,
        },
{
    let ghost es = ops_extents(ops@);
    let fes = flatten_extents(ops);
    let n = fes.len();

    // Every extent must carry both fields, and its end must not overflow.
    let mut k: usize = 0;
    while k < n
        invariant
            k <= n == fes@.len(),
            fes@ == es,
            es == ops_extents(ops@),
            forall|m: int| 0 <= m < k ==> extent_fields_ok(#[trigger] es[m]) && extent_end_ok(es[m]),
        decreases n - k,
    {
        let e = fes[k];
        let start = match e.start_block {
            Some(s) => s,
            None => {
                proof {
                    assert(!extent_fields_ok(es[k as int]));
                    assert(!extents_complete(es));
                }
                return Err(ExtractError::InvalidManifest(ManifestFault::MissingField));
            },
        };
        let num = match e.num_blocks {
            Some(s) => s,
            None => {
                proof {
                    assert(!extent_fields_ok(es[k as int]));
                    assert(!extents_complete(es));
                }
                return Err(ExtractError::InvalidManifest(ManifestFault::MissingField));
            },
        };
        if num > u64::MAX - start {
            proof {
                assert(es[k as int].start_block == Some(start));
                assert(es[k as int].num_blocks == Some(num));
                assert(!extent_end_ok(es[k as int]));
                assert(!extents_no_overflow(es));
            }
            return Err(ExtractError::InvalidManifest(ManifestFault::Overflow));
        }
        k = k + 1;
    }

    // Keep the non-empty extents as block ranges tagged with their position.
    let mut br: Vec<BlockRange> = Vec::new();
    let mut k2: usize = 0;
    while k2 < n
        invariant
            k2 <= n == fes@.len(),
            fes@ == es,
            es == ops_extents(ops@),
            extents_complete(es) && extents_no_overflow(es),
            forall|m: int|
                0 <= m < br@.len() ==> {
                    let b = #[trigger] br@[m];
                    &&& b.index < k2
                    &&& extent_nonempty(es[b.index as int])
                    &&& b.start == es[b.index as int].start_block.unwrap()
                    &&& b.end == es[b.index as int].start_block.unwrap() + es[
                        b.index as int
                    ].num_blocks.unwrap()
                },
            forall|m1: int, m2: int|
                0 <= m1 < m2 < br@.len() ==> #[trigger] br@[m1].index < #[trigger] br@[m2].index,
            forall|fi: int|
                0 <= fi < k2 && extent_nonempty(es[fi]) ==> exists|m: int|
                    0 <= m < br@.len() && #[trigger] br@[m].index == fi,
        decreases n - k2,
    {
        let e = fes[k2];
        let start = e.start_block.unwrap();
        let num = e.num_blocks.unwrap();
        if num != 0 {
            let ghost before = br@;
            br.push(BlockRange { index: k2, start, end: start + num });
            proof {
                assert forall|fi: int|
                    0 <= fi < k2 + 1 && extent_nonempty(es[fi]) implies exists|m: int|
                    0 <= m < br@.len() && #[trigger] br@[m].index == fi by {
                    if fi < k2 {
                        let m = choose|m: int|
                            0 <= m < before.len() && #[trigger] before[m].index == fi;
                        assert(br@[m].index == fi);
                    } else {
                        assert(br@[before.len() as int].index == fi);
                    }
                }
            }
        }
        k2 = k2 + 1;
    }

    // Any two kept ranges that intersect name an overlapping pair.
    let c = br.len();
    let mut a: usize = 0;
    while a < c
        invariant
            a <= c == br@.len(),
            fes@ == es,
            es == ops_extents(ops@),
            extents_complete(es) && extents_no_overflow(es),
            forall|m: int|
                0 <= m < br@.len() ==> {
                    let b = #[trigger] br@[m];
                    &&& b.index < es.len()
                    &&& extent_nonempty(es[b.index as int])
                    &&& b.start == es[b.index as int].start_block.unwrap()
                    &&& b.end == es[b.index as int].start_block.unwrap() + es[
                        b.index as int
                    ].num_blocks.unwrap()
                },
            forall|m1: int, m2: int|
                0 <= m1 < m2 < br@.len() ==> #[trigger] br@[m1].index < #[trigger] br@[m2].index,
            forall|fi: int|
                0 <= fi < es.len() && extent_nonempty(es[fi]) ==> exists|m: int|
                    0 <= m < br@.len() && #[trigger] br@[m].index == fi,
            forall|m1: int, m2: int|
                0 <= m1 < a && m1 < m2 < br@.len() ==> !blocks_overlap(
                    es[#[trigger] br@[m1].index as int],
                    es[#[trigger] br@[m2].index as int],
                ),
        decreases c - a,
    {
        let mut b: usize = a + 1;
        while b < c
            invariant
                a < b <= c == br@.len(),
                fes@ == es,
            es == ops_extents(ops@),
                extents_complete(es) && extents_no_overflow(es),
                forall|m: int|
                    0 <= m < br@.len() ==> {
                        let bb = #[trigger] br@[m];
                        &&& bb.index < es.len()
                        &&& extent_nonempty(es[bb.index as int])
                        &&& bb.start == es[bb.index as int].start_block.unwrap()
                        &&& bb.end == es[bb.index as int].start_block.unwrap() + es[
                            bb.index as int
                        ].num_blocks.unwrap()
                    },
                forall|m1: int, m2: int|
                    0 <= m1 < m2 < br@.len() ==> #[trigger] br@[m1].index < #[trigger] br@[
                        m2
                    ].index,
                forall|m2: int|
                    a < m2 < b ==> !blocks_overlap(
                        es[br@[a as int].index as int],
                        es[#[trigger] br@[m2].index as int],
                    ),
            decreases c - b,
        {
            let ra = br[a];
            let rb = br[b];
            if ra.start < rb.end && rb.start < ra.end {
                proof {
                    assert(br@[a as int].index < br@[b as int].index);
                    assert(blocks_overlap(es[ra.index as int], es[rb.index as int]));
                    assert(!extents_disjoint(es));
                }
                return Err(
                    ExtractError::InvalidManifest(ManifestFault::Overlap(ra.index, rb.index)),
                );
            }
            b = b + 1;
        }
        a = a + 1;
    }

    proof {
        assert forall|i: int, j: int|
            0 <= i < es.len() && 0 <= j < es.len() && i != j implies !blocks_overlap(
            es[i],
            es[j],
        ) by {
            if extent_nonempty(es[i]) && extent_nonempty(es[j]) {
                let m1 = choose|m: int| 0 <= m < br@.len() && #[trigger] br@[m].index == i;
                let m2 = choose|m: int| 0 <= m < br@.len() && #[trigger] br@[m].index == j;
                assert(m1 != m2);
            }
        }
    }
    Ok(())
}

} // verus!
