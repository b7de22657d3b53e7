use vstd::prelude::*;
use vstd::slice::{slice_subrange, slice_to_vec};
use crate::compress::{bz_decompress, bz_inflate, xz_decompress, xz_inflate};
use crate::errors::{ExtractError, ManifestFault};
use crate::extents::{
    extent_fields_ok, extents_complete, extents_disjoint, extents_no_overflow, ops_extents,
    validate_partition_extents,
};
use crate::hashing::{hex_of, sha256_of, sha256_hex, verify_sha256};
use crate::manifest::{Extent, InstallOperation, SpecInstallOperation, SpecPartitionUpdate};
use crate::writer::{
    imin, ranges_in_bounds, rv, scatter, total_len, write_extents, zero_extents, zeros, ByteRange,
};

verus! {

/// The extraction options. The paths are carried for the surrounding program;
/// the library's decisions read only the flags and the partition selection.
pub struct Cmd {
    /// The input file, when given through the option.
    pub payload: Option<String>,
    /// List partitions instead of extracting them.
    pub list: bool,
    /// Requested worker count; 0 or absent means the machine's default.
    pub threads: Option<usize>,
    /// Where to create the output directory.
    pub output_dir: Option<String>,
    /// Extract only these partitions; empty means all.
    pub partitions: Vec<Vec<u8>>,
    /// Skip every hash comparison.
    pub skip_verify: bool,
    /// Demand that every needed hash is present, and enforce it.
    pub strict: bool,
    /// Report each partition's SHA-256 after extraction.
    pub print_hash: bool,
    /// Fail on an output image that is all zeros.
    pub plausibility_checks: bool,
    /// Report per-partition statistics.
    pub stats: bool,
    /// Do not open the output folder afterwards.
    pub no_open_folder: bool,
    /// The input file, when given as a positional argument.
    pub positional_payload: Option<String>,
}

/// What an operation type's wire value means to the extraction.
#[derive(Clone, Copy, PartialEq, Eq, Structural, Debug)]
pub enum OpKind {
    /// Write the input bytes as they are.
    Replace,
    /// bzip2-decompress the input bytes, then write.
    ReplaceBz,
    /// xz-decompress the input bytes, then write.
    ReplaceXz,
    /// Fill the destination with zeros.
    Zero,
    /// Treated as zero fill.
    Discard,
    /// A delta/patch type; extraction refuses it.
    Incremental,
    /// Not a known operation type.
    Unknown,
}

/// Classifies an operation type's wire value.
pub open spec fn spec_op_kind(t: u64) -> OpKind {
    if t == 0 {
        OpKind::Replace
    } else if t == 1 {
        OpKind::ReplaceBz
    } else if t == 8 {
        OpKind::ReplaceXz
    } else if t == 6 {
        OpKind::Zero
    } else if t == 7 {
        OpKind::Discard
    } else if t == 2 || t == 3 || t == 4 || t == 5 || t == 9 || t == 10 || t == 11 || t == 12 || t
        == 13 {
        OpKind::Incremental
    } else {
        OpKind::Unknown
    }
}

/// Classifies an operation type's wire value.
pub fn op_kind(t: u64) -> (r: OpKind)
    ensures
        r == spec_op_kind(t),
{
    if t == 0 {
        OpKind::Replace
    } else if t == 1 {
        OpKind::ReplaceBz
    } else if t == 8 {
        OpKind::ReplaceXz
    } else if t == 6 {
        OpKind::Zero
    } else if t == 7 {
        OpKind::Discard
    } else if t == 2 || t == 3 || t == 4 || t == 5 || t == 9 || t == 10 || t == 11 || t == 12 || t
        == 13 {
        OpKind::Incremental
    } else {
        OpKind::Unknown
    }
}

/// An operation writes self-contained bytes; a partition whose operations are
/// all full is labelled `Full` by the listing.
pub open spec fn spec_op_is_full(t: u64) -> bool {
    spec_op_kind(t) is Replace || spec_op_kind(t) is ReplaceBz || spec_op_kind(t) is ReplaceXz
        || spec_op_kind(t) is Zero || spec_op_kind(t) is Discard
}

/// The byte ranges an operation's extents denote in a partition of `plen`
/// bytes: offset and length are the block values scaled by the block size,
/// empty extents are dropped, and a range that misses a field or reaches past
/// the partition refuses the whole list.
pub open spec fn spec_byte_ranges(es: Seq<Extent>, bs: u32, plen: int) -> Option<Seq<ByteRange>>
    decreases es.len(),
{
    if es.len() == 0 {
        Some(Seq::empty())
    } else {
        let e = es[0];
        if !extent_fields_ok(e) {
            None
        } else {
            let off = e.start_block.unwrap() * bs;
            let len = e.num_blocks.unwrap() * bs;
            if e.num_blocks.unwrap() == 0 {
                spec_byte_ranges(es.skip(1), bs, plen)
            } else if off + len > plen {
                None
            } else {
                match spec_byte_ranges(es.skip(1), bs, plen) {
                    None => None,
                    Some(rest) => Some(
                        seq![ByteRange { offset: off as usize, len: len as usize }] + rest,
                    ),
                }
            }
        }
    }
}

/// Accepted byte ranges all lie within the partition.
pub proof fn lemma_byte_ranges_in_bounds(es: Seq<Extent>, bs: u32, plen: int)
    requires
        spec_byte_ranges(es, bs, plen) is Some,
        plen >= 0,
    ensures
        ranges_in_bounds(rv(spec_byte_ranges(es, bs, plen).unwrap()), plen),
    decreases es.len(),
{
    if es.len() > 0 {
        let e = es[0];
        if extent_fields_ok(e) && e.num_blocks.unwrap() != 0 {
            lemma_byte_ranges_in_bounds(es.skip(1), bs, plen);
            let rest = spec_byte_ranges(es.skip(1), bs, plen).unwrap();
            let off = e.start_block.unwrap() * bs;
            let len = e.num_blocks.unwrap() * bs;
            let head = ByteRange { offset: off as usize, len: len as usize };
            assert(rv(seq![head] + rest) =~= rv(seq![head]) + rv(rest));
            assert forall|k: int|
                0 <= k < rv(seq![head] + rest).len() implies (#[trigger] rv(
                seq![head] + rest,
            )[k]).0 >= 0 && rv(seq![head] + rest)[k].1 >= 0 && rv(seq![head] + rest)[k].0 + rv(
                seq![head] + rest,
            )[k].1 <= plen by {
                if k > 0 {
                    assert(rv(seq![head] + rest)[k] == rv(rest)[k - 1]);
                }
            }
        } else if extent_fields_ok(e) {
            lemma_byte_ranges_in_bounds(es.skip(1), bs, plen);
        }
    }
}

/// Derives an operation's destination byte ranges with checked arithmetic:
/// refuses a missing field and a range that leaves the partition; skips
/// empty extents, which write nothing.
pub fn extract_dst_extents_safe(extents: &Vec<Extent>, block_size: u32, partition_len: usize) -> (r:
    Result<Vec<ByteRange>, ExtractError>)
    ensures
        match r {
            Ok(rs) => spec_byte_ranges(extents@, block_size, partition_len as int) == Some(rs@),
            Err(e) => spec_byte_ranges(extents@, block_size, partition_len as int) is None && (e
                == ExtractError::InvalidManifest(ManifestFault::MissingField) || e
                == ExtractError::InvalidManifest(ManifestFault::OutOfBounds)),
        },
{
    let ghost esv = extents@;
    let n = extents.len();
    let mut out: Vec<ByteRange> = Vec::new();
    let mut i: usize = 0;
    proof {
        assert(esv.skip(0) =~= esv);
    }
    while i < n
        invariant
            i <= n == esv.len(),
            extents@ == esv,
            spec_byte_ranges(esv, block_size, partition_len as int) == (match spec_byte_ranges(
                esv.skip(i as int),
                block_size,
                partition_len as int,
            ) {
                Some(rest) => Some(out@ + rest),
                None => None::<Seq<ByteRange>>,
            }),
        decreases n - i,
    {
        let e = extents[i];
        let start = match e.start_block {
            Some(s) => s,
            None => {
                return Err(ExtractError::InvalidManifest(ManifestFault::MissingField));
            },
        };
        let num = match e.num_blocks {
            Some(s) => s,
            None => {
                return Err(ExtractError::InvalidManifest(ManifestFault::MissingField));
            },
        };
        proof {
            assert(esv.skip(i as int)[0] == e);
            assert(esv.skip(i as int).skip(1) =~= esv.skip(i as int + 1));
        }
        if num != 0 {
            let off = match start.checked_mul(block_size as u64) {
                Some(v) => v,
                None => {
                    proof {
                        crate::cmd::lemma_mul_overflow(start, block_size, partition_len as int);
                    }
                    return Err(ExtractError::InvalidManifest(ManifestFault::OutOfBounds));
                },
            };
            let len = match num.checked_mul(block_size as u64) {
                Some(v) => v,
                None => {
                    proof {
                        crate::cmd::lemma_mul_overflow(num, block_size, partition_len as int);
                    }
                    return Err(ExtractError::InvalidManifest(ManifestFault::OutOfBounds));
                },
            };
            let plen64 = partition_len as u64;
            if off > plen64 || len > plen64 - off {
                return Err(ExtractError::InvalidManifest(ManifestFault::OutOfBounds));
            }
            let ghost before = out@;
            out.push(ByteRange { offset: off as usize, len: len as usize });
            proof {
                let rest1 = spec_byte_ranges(
                    esv.skip(i as int + 1),
                    block_size,
                    partition_len as int,
                );
                if rest1 is Some {
                    assert(before + (seq![
                        ByteRange { offset: off as usize, len: len as usize },
                    ] + rest1.unwrap()) =~= out@ + rest1.unwrap());
                }
            }
        }
        i = i + 1;
    }
    proof {
        assert(esv.skip(n as int) =~= Seq::<Extent>::empty());
        assert(spec_byte_ranges(Seq::<Extent>::empty(), block_size, partition_len as int)
            == Some(Seq::<ByteRange>::empty()));
        assert(out@ + Seq::<ByteRange>::empty() =~= out@);
    }
    Ok(out)
}

/// A block-scaled product that overflows 64 bits cannot fit any partition.
pub proof fn lemma_mul_overflow(a: u64, bs: u32, plen: int)
    requires
        a * bs > u64::MAX,
        plen <= u64::MAX,
    ensures
        a * bs > plen,
{
}

/// The smallest multiple of `b` that is at least `n`.
pub open spec fn align_up(n: int, b: int) -> int {
    ((n + b - 1) / b) * b
}

/// The input bytes an operation names in the payload's data region.
pub open spec fn spec_op_data(op: SpecInstallOperation, data: Seq<u8>) -> Option<Seq<u8>> {
    if op.data_offset is Some && op.data_length is Some {
        let off = op.data_offset.unwrap() as int;
        let len = op.data_length.unwrap() as int;
        if off + len <= data.len() {
            Some(data.subrange(off, off + len))
        } else {
            None
        }
    } else {
        None
    }
}

/// The hash gate an operation's input must pass: when verification is on and
/// the operation declares an input hash, the input's SHA-256 must equal it.
pub open spec fn spec_input_hash_ok(op: SpecInstallOperation, raw: Seq<u8>, verify: bool) -> bool {
    verify && op.data_sha256_hash is Some ==> sha256_of(raw) == op.data_sha256_hash.unwrap()
}

impl Cmd {
    /// Hash comparisons run unless they were switched off.
    pub open spec fn verify_enabled(&self) -> bool {
        !self.skip_verify
    }

    /// Resolves an operation's input bytes from the payload data region and,
    /// when verification is on and the operation declares an input hash,
    /// checks the input's SHA-256 against it before anything is written.
    pub fn extract_data<'a>(&self, op: &InstallOperation, data: &'a [u8]) -> (r: Result<
        &'a [u8],
        ExtractError,
    >)
        ensures
            r is Ok <==> spec_op_data(op@, data@) is Some && spec_input_hash_ok(
                op@,
                spec_op_data(op@, data@).unwrap(),
                self.verify_enabled(),
            ),
            r is Ok ==> r.unwrap()@ == spec_op_data(op@, data@).unwrap(),
            match r {
                Ok(_) => true,
                Err(e) => e == ExtractError::InvalidManifest(ManifestFault::MissingField) || e
                    == ExtractError::InvalidManifest(ManifestFault::OutOfBounds) || e
                    == ExtractError::HashMismatch,
            },
    {
        let len = match op.data_length {
            Some(l) => l,
            None => {
                return Err(ExtractError::InvalidManifest(ManifestFault::MissingField));
            },
        };
        let off = match op.data_offset {
            Some(o) => o,
            None => {
                return Err(ExtractError::InvalidManifest(ManifestFault::MissingField));
            },
        };
        let dlen = data.len();
        if off > dlen as u64 || len > (dlen as u64) - off {
            return Err(ExtractError::InvalidManifest(ManifestFault::OutOfBounds));
        }
        let raw = slice_subrange(data, off as usize, (off + len) as usize);
        match &op.data_sha256_hash {
            Some(h) => {
                if !self.skip_verify {
                    if !verify_sha256(raw, h.as_slice()) {
                        return Err(ExtractError::HashMismatch);
                    }
                }
            },
            None => {},
        }
        Ok(raw)
    }

    /// Writes one resolved input stream across the destination ranges. The
    /// stream must fill the ranges' whole capacity once padded to the block
    /// size: anything shorter or longer is refused, and a refused write
    /// leaves the sink untouched.
    pub fn run_op_replace_slice(
        &self,
        data: &[u8],
        ranges: &Vec<ByteRange>,
        sink: &mut Vec<u8>,
        block_size: u32,
    ) -> (r: Result<(), ExtractError>)
        requires
            block_size >= 1,
            ranges_in_bounds(rv(ranges@), old(sink)@.len() as int),
        ensures
            r is Ok <==> align_up(data@.len() as int, block_size as int) == total_len(rv(ranges@)),
            r is Ok ==> final(sink)@ == scatter(old(sink)@, rv(ranges@), data@),
            r is Err ==> final(sink)@ == old(sink)@ && r == Err::<(), ExtractError>(
                ExtractError::InvalidManifest(ManifestFault::SizeMismatch),
            ),
            final(sink)@.len() == old(sink)@.len(),
    {
        let dlen = data.len();
        proof {
            let x = dlen as int + block_size as int - 1;
            let b = block_size as int;
            vstd::arithmetic::div_mod::lemma_fundamental_div_mod(x, b);
            vstd::arithmetic::div_mod::lemma_mod_bound(x, b);
            vstd::arithmetic::mul::lemma_mul_is_commutative(b, x / b);
            assert((x / b) * b <= x);
        }
        let aligned: u128 = ((dlen as u128) + (block_size as u128) - 1) / (block_size as u128) * (
        block_size as u128);
        proof {
            assert(aligned == align_up(dlen as int, block_size as int));
            assert(aligned <= (u64::MAX as u128) + (u32::MAX as u128));
            assert(dlen as int <= align_up(dlen as int, block_size as int));
        }
        let n = ranges.len();
        let mut cap: u128 = 0;
        let mut i: usize = 0;
        proof {
            assert(rv(ranges@).take(0) =~= Seq::<(int, int)>::empty());
        }
        while i < n
            invariant
                i <= n == ranges@.len(),
                ranges_in_bounds(rv(ranges@), sink@.len() as int),
                cap == total_len(rv(ranges@).take(i as int)),
                cap <= aligned,
                aligned == align_up(dlen as int, block_size as int),
                aligned <= (u64::MAX as u128) + (u32::MAX as u128),
                dlen == data@.len(),
                block_size >= 1,
            decreases n - i,
        {
            let l = ranges[i].len;
            proof {
                crate::writer::lemma_total_len_snoc(
                    rv(ranges@).take(i as int),
                    rv(ranges@)[i as int],
                );
                assert(rv(ranges@).take(i as int).push(rv(ranges@)[i as int]) =~= rv(
                    ranges@,
                ).take(i as int + 1));
                assert(rv(ranges@)[i as int].1 == l as int);
            }
            let cap2 = cap + (l as u128);
            if cap2 > aligned {
                proof {
                    crate::writer::lemma_total_len_split(rv(ranges@), i as int + 1);
                    lemma_ranges_nonneg(rv(ranges@), i as int + 1);
                    assert(cap2 == total_len(rv(ranges@).take(i as int + 1)));
                    assert(total_len(rv(ranges@)) >= cap2);
                    assert(align_up(dlen as int, block_size as int) != total_len(rv(ranges@)));
                }
                return Err(ExtractError::InvalidManifest(ManifestFault::SizeMismatch));
            }
            cap = cap2;
            i = i + 1;
        }
        proof {
            assert(rv(ranges@).take(n as int) =~= rv(ranges@));
        }
        if cap != aligned {
            return Err(ExtractError::InvalidManifest(ManifestFault::SizeMismatch));
        }
        let written = write_extents(sink, ranges, data);
        proof {
            assert(written == dlen);
        }
        Ok(())
    }
}

/// The capacity of any tail of in-bounds ranges is non-negative.
proof fn lemma_ranges_nonneg(rs: Seq<(int, int)>, i: int)
    requires
        0 <= i <= rs.len(),
        forall|k: int| 0 <= k < rs.len() ==> (#[trigger] rs[k]).1 >= 0,
    ensures
        total_len(rs.skip(i)) >= 0,
{
    assert forall|k: int| 0 <= k < rs.skip(i).len() implies (#[trigger] rs.skip(i)[k]).1 >= 0 by {
        assert(rs.skip(i)[k] == rs[k + i]);
    }
    crate::writer::lemma_total_len_nonneg(rs.skip(i));
}

/// What one operation does to a partition image of `sink.len()` bytes, or
/// `None` when the operation must be refused: a missing type, unusable
/// extents, unusable input, a failed input-hash check, a stream the format
/// cannot decode, a delta type, or a stream that does not fill its extents.
pub open spec fn apply_op(
    sink: Seq<u8>,
    op: SpecInstallOperation,
    data: Seq<u8>,
    bs: u32,
    verify: bool,
) -> Option<Seq<u8>> {
    if op.op_type is None {
        None
    } else {
        let kind = spec_op_kind(op.op_type.unwrap());
        match spec_byte_ranges(op.dst_extents, bs, sink.len() as int) {
            None => None,
            Some(brs) => {
                let rs = rv(brs);
                if kind is Zero || kind is Discard {
                    Some(scatter(sink, rs, zeros(total_len(rs))))
                } else if kind is Replace || kind is ReplaceBz || kind is ReplaceXz {
                    match spec_op_data(op, data) {
                        None => None,
                        Some(raw) => if !spec_input_hash_ok(op, raw, verify) {
                            None
                        } else {
                            let stream = if kind is Replace {
                                Some(raw)
                            } else if kind is ReplaceBz {
                                bz_inflate(raw)
                            } else {
                                xz_inflate(raw)
                            };
                            match stream {
                                None => None,
                                Some(d) => if align_up(d.len() as int, bs as int) == total_len(rs) {
                                    Some(scatter(sink, rs, d))
                                } else {
                                    None
                                },
                            }
                        },
                    }
                } else {
                    None
                }
            },
        }
    }
}

impl Cmd {
    /// Runs one operation against the partition image: derives and checks the
    /// destination ranges, resolves and checks the input, decodes it when the
    /// type compresses, and writes it across the ranges. Exactly the
    /// operations `apply_op` accepts succeed, and they leave the image in the
    /// state `apply_op` gives; a refused operation changes nothing.
    pub fn run_op_safe(
        &self,
        op: &InstallOperation,
        data: &[u8],
        sink: &mut Vec<u8>,
        block_size: u32,
    ) -> (r: Result<(), ExtractError>)
        requires
            block_size >= 1,
        ensures
            r is Ok <==> apply_op(
                old(sink)@,
                op@,
                data@,
                block_size,
                self.verify_enabled(),
            ) is Some,
            r is Ok ==> final(sink)@ == apply_op(
                old(sink)@,
                op@,
                data@,
                block_size,
                self.verify_enabled(),
            ).unwrap(),
            r is Err ==> final(sink)@ == old(sink)@,
            final(sink)@.len() == old(sink)@.len(),
            match r {
                Ok(_) => true,
                Err(ExtractError::UnsupportedIncremental(t)) => op@.op_type == Some(t)
                    && spec_op_kind(t) is Incremental,
                Err(ExtractError::HashMismatch) => true,
                Err(ExtractError::Corrupt) => true,
                Err(ExtractError::InvalidManifest(_)) => true,
                Err(_) => false,
            },
    {
        let t = match op.op_type {
            Some(t) => t,
            None => {
                return Err(ExtractError::InvalidManifest(ManifestFault::MissingField));
            },
        };
        let ranges = match extract_dst_extents_safe(&op.dst_extents, block_size, sink.len()) {
            Ok(rs) => rs,
            Err(e) => {
                return Err(e);
            },
        };
        proof {
            lemma_byte_ranges_in_bounds(op@.dst_extents, block_size, sink@.len() as int);
        }
        match op_kind(t) {
            OpKind::Zero | OpKind::Discard => {
                zero_extents(sink, &ranges);
                Ok(())
            },
            OpKind::Replace => {
                let raw = match self.extract_data(op, data) {
                    Ok(d) => d,
                    Err(e) => {
                        return Err(e);
                    },
                };
                self.run_op_replace_slice(raw, &ranges, sink, block_size)
            },
            OpKind::ReplaceBz => {
                let raw = match self.extract_data(op, data) {
                    Ok(d) => d,
                    Err(e) => {
                        return Err(e);
                    },
                };
                let inflated = match bz_decompress(raw) {
                    Some(v) => v,
                    None => {
                        return Err(ExtractError::Corrupt);
                    },
                };
                self.run_op_replace_slice(inflated.as_slice(), &ranges, sink, block_size)
            },
            OpKind::ReplaceXz => {
                let raw = match self.extract_data(op, data) {
                    Ok(d) => d,
                    Err(e) => {
                        return Err(e);
                    },
                };
                let inflated = match xz_decompress(raw) {
                    Some(v) => v,
                    None => {
                        return Err(ExtractError::Corrupt);
                    },
                };
                self.run_op_replace_slice(inflated.as_slice(), &ranges, sink, block_size)
            },
            OpKind::Incremental => Err(ExtractError::UnsupportedIncremental(t)),
            OpKind::Unknown => Err(ExtractError::InvalidManifest(ManifestFault::UnknownOp)),
        }
    }
}

/// The image after every operation has run, in order; `None` as soon as one
/// operation is refused.
pub open spec fn apply_ops(
    sink: Seq<u8>,
    ops: Seq<SpecInstallOperation>,
    data: Seq<u8>,
    bs: u32,
    verify: bool,
) -> Option<Seq<u8>>
    decreases ops.len(),
{
    if ops.len() == 0 {
        Some(sink)
    } else {
        match apply_op(sink, ops[0], data, bs, verify) {
            None => None,
            Some(s2) => apply_ops(s2, ops.skip(1), data, bs, verify),
        }
    }
}

/// The validator's judgement of a partition's destination extents.
pub open spec fn spec_extents_valid(ops: Seq<SpecInstallOperation>) -> bool {
    &&& extents_complete(crate::extents::flat_extents(ops))
    &&& extents_no_overflow(crate::extents::flat_extents(ops))
    &&& extents_disjoint(crate::extents::flat_extents(ops))
}

/// The output image one partition denotes, or `None` when extraction of that
/// partition must fail: no declared size, a size beyond the machine's address
/// range, extents the validator refuses, a hash strict mode misses, an
/// operation that is refused, an output whose SHA-256 differs from the
/// declared one while verification is on, or an all-zero output while sanity
/// checks are on.
pub open spec fn spec_partition_image(
    p: SpecPartitionUpdate,
    data: Seq<u8>,
    bs: u32,
    verify: bool,
    strict: bool,
    sanity: bool,
) -> Option<Seq<u8>> {
    match p.new_partition_info {
        None => None,
        Some(info) => match info.size {
            None => None,
            Some(size) => if size > usize::MAX as u64 {
                None
            } else if !spec_extents_valid(p.operations) {
                None
            } else if strict && info.hash is None {
                None
            } else {
                match apply_ops(zeros(size as int), p.operations, data, bs, verify) {
                    None => None,
                    Some(img) => if verify && info.hash is Some && sha256_of(img)
                        != info.hash.unwrap() {
                        None
                    } else if sanity && crate::bulk::all_zero(img) {
                        None
                    } else {
                        Some(img)
                    },
                }
            },
        },
    }
}

impl Cmd {
    /// Extracts one partition into a fresh image of the declared size:
    /// validates the extents, runs every operation in order, and applies the
    /// post-processing checks. The image returned is exactly the one the
    /// partition denotes, byte for byte.
    pub fn extract_partition(
        &self,
        part: &crate::manifest::PartitionUpdate,
        data: &[u8],
        block_size: u32,
    ) -> (r: Result<Vec<u8>, ExtractError>)
        requires
            block_size >= 1,
        ensures
            r is Ok <==> spec_partition_image(
                part@,
                data@,
                block_size,
                self.verify_enabled(),
                self.strict,
                self.plausibility_checks,
            ) is Some,
            r is Ok ==> r.unwrap()@ == spec_partition_image(
                part@,
                data@,
                block_size,
                self.verify_enabled(),
                self.strict,
                self.plausibility_checks,
            ).unwrap(),
            r is Ok ==> part@.new_partition_info is Some
                && part@.new_partition_info.unwrap().size is Some && r.unwrap()@.len()
                == part@.new_partition_info.unwrap().size.unwrap(),
            match r {
                Ok(_) => true,
                Err(ExtractError::MissingHash) => self.strict,
                Err(ExtractError::SanityFailed) => self.plausibility_checks,
                Err(_) => true,
            },
    {
        let info = match &part.new_partition_info {
            Some(i) => i,
            None => {
                return Err(ExtractError::InvalidManifest(ManifestFault::NoSize));
            },
        };
        let size = match info.size {
            Some(s) => s,
            None => {
                return Err(ExtractError::InvalidManifest(ManifestFault::NoSize));
            },
        };
        if size > usize::MAX as u64 {
            return Err(ExtractError::Io);
        }
        proof {
            assert(part.operations@.map_values(|o: InstallOperation| o@) =~= part@.operations);
        }
        match validate_partition_extents(&part.operations) {
            Ok(_) => {},
            Err(e) => {
                return Err(e);
            },
        }
        let strict_hash_missing = match &info.hash {
            Some(_) => false,
            None => true,
        };
        if self.strict && strict_hash_missing {
            return Err(ExtractError::MissingHash);
        }
        let mut sink = crate::writer::make_zeros(size as usize);
        let ghost opsv = part@.operations;
        let n = part.operations.len();
        let mut i: usize = 0;
        proof {
            assert(opsv.skip(0) =~= opsv);
            assert(sink@ =~= zeros(size as int));
        }
        while i < n
            invariant
                i <= n == part.operations@.len(),
                opsv == part@.operations,
                block_size >= 1,
                sink@.len() == size,
                part@.new_partition_info is Some,
                part@.new_partition_info.unwrap().size == Some(size),
                size <= usize::MAX as u64,
                spec_extents_valid(part@.operations),
                !(self.strict && part@.new_partition_info.unwrap().hash is None),
                apply_ops(
                    zeros(size as int),
                    opsv,
                    data@,
                    block_size,
                    self.verify_enabled(),
                ) == apply_ops(sink@, opsv.skip(i as int), data@, block_size, self.verify_enabled()),
            decreases n - i,
        {
            let op = &part.operations[i];
            proof {
                assert(opsv.skip(i as int)[0] == op@);
                assert(opsv.skip(i as int).skip(1) =~= opsv.skip(i as int + 1));
            }
            match self.run_op_safe(op, data, &mut sink, block_size) {
                Ok(_) => {},
                Err(e) => {
                    return Err(e);
                },
            }
            i = i + 1;
        }
        proof {
            assert(opsv.skip(n as int) =~= Seq::<SpecInstallOperation>::empty());
        }
        if !self.skip_verify {
            match &info.hash {
                Some(h) => {
                    if !verify_sha256(sink.as_slice(), h.as_slice()) {
                        return Err(ExtractError::HashMismatch);
                    }
                },
                None => {},
            }
        }
        if self.plausibility_checks {
            if crate::bulk::is_all_zero(sink.as_slice()) {
                return Err(ExtractError::SanityFailed);
            }
        }
        Ok(sink)
    }
}

/// One extracted partition: its name, its rank among the selected partitions
/// in manifest order, its image, and, when requested, the image's SHA-256 as
/// lower-case hex.
#[derive(Debug)]
pub struct PartitionOutput {
    /// The partition's name.
    pub name: Vec<u8>,
    /// Rank in the selected, manifest-order sequence; reports are stable in it.
    pub order: usize,
    /// The output image.
    pub image: Vec<u8>,
    /// The image's SHA-256, when hash printing is on.
    pub hash_hex: Option<String>,
}

/// Mathematical form of `PartitionOutput`.
pub struct SpecPartitionOutput {
    pub name: Seq<u8>,
    pub order: int,
    pub image: Seq<u8>,
    pub hash_hex: Option<Seq<char>>,
}

impl View for PartitionOutput {
    type V = SpecPartitionOutput;

    open spec fn view(&self) -> SpecPartitionOutput {
        SpecPartitionOutput {
            name: self.name@,
            order: self.order as int,
            image: self.image@,
            hash_hex: match self.hash_hex {
                Some(ref h) => Some(h@),
                None => None,
            },
        }
    }
}

/// The outputs' mathematical form.
pub open spec fn outputs_view(v: Seq<PartitionOutput>) -> Seq<SpecPartitionOutput> {
    v.map_values(|o: PartitionOutput| o@)
}

/// A partition is selected when no selection was given, or its name is among
/// the requested ones.
pub open spec fn spec_selected(names: Seq<Seq<u8>>, p: SpecPartitionUpdate) -> bool {
    names.len() == 0 || (p.partition_name is Some && names.contains(p.partition_name.unwrap()))
}

/// The requested options are consistent: a worker count of 0 or up to 256
/// (0 meaning the machine's default), and strictness only with verification.
pub open spec fn spec_config_ok(threads: Option<usize>, skipv: bool, strict: bool) -> bool {
    &&& (match threads {
        Some(t) => t <= 256,
        None => true,
    })
    &&& !(strict && skipv)
}

/// Some partition of the manifest carries this name.
pub open spec fn name_found(ps: Seq<SpecPartitionUpdate>, name: Seq<u8>) -> bool {
    exists|i: int| 0 <= i < ps.len() && (#[trigger] ps[i].partition_name) == Some(name)
}

/// Every requested partition name occurs in the manifest.
pub open spec fn names_all_found(names: Seq<Seq<u8>>, ps: Seq<SpecPartitionUpdate>) -> bool {
    forall|j: int| 0 <= j < names.len() ==> name_found(ps, #[trigger] names[j])
}

/// What strict mode demands of one partition: a declared output hash, and an
/// input hash on every operation that consumes payload data.
pub open spec fn strict_part_ok(p: SpecPartitionUpdate) -> bool {
    &&& p.new_partition_info is Some
    &&& p.new_partition_info.unwrap().hash is Some
    &&& forall|k: int|
        0 <= k < p.operations.len() ==> (((#[trigger] p.operations[k]).data_length is Some
            && p.operations[k].data_length.unwrap() > 0) ==> p.operations[k].data_sha256_hash
            is Some)
}

/// Strict mode's demand over every selected partition.
pub open spec fn strict_hashes_ok(names: Seq<Seq<u8>>, ps: Seq<SpecPartitionUpdate>) -> bool {
    forall|i: int|
        0 <= i < ps.len() && spec_selected(names, #[trigger] ps[i]) ==> strict_part_ok(ps[i])
}

/// The outputs of the selected partitions of `ps`, in manifest order, with
/// ranks starting at `order0`; `None` as soon as one selected partition's
/// extraction fails, a selected partition has no name included.
pub open spec fn spec_outputs(
    ps: Seq<SpecPartitionUpdate>,
    names: Seq<Seq<u8>>,
    data: Seq<u8>,
    bs: u32,
    verify: bool,
    strict: bool,
    sanity: bool,
    print: bool,
    order0: int,
) -> Option<Seq<SpecPartitionOutput>>
    decreases ps.len(),
{
    if ps.len() == 0 {
        Some(Seq::empty())
    } else if !spec_selected(names, ps[0]) {
        spec_outputs(ps.skip(1), names, data, bs, verify, strict, sanity, print, order0)
    } else if ps[0].partition_name is None {
        None
    } else {
        match spec_partition_image(ps[0], data, bs, verify, strict, sanity) {
            None => None,
            Some(img) => {
                match spec_outputs(
                    ps.skip(1),
                    names,
                    data,
                    bs,
                    verify,
                    strict,
                    sanity,
                    print,
                    order0 + 1,
                ) {
                    None => None,
                    Some(rest) => Some(
                        seq![
                            SpecPartitionOutput {
                                name: ps[0].partition_name.unwrap(),
                                order: order0,
                                image: img,
                                hash_hex: if print {
                                    Some(hex_of(sha256_of(img)))
                                } else {
                                    None
                                },
                            },
                        ] + rest,
                    ),
                }
            },
        }
    }
}

/// What a whole extraction run denotes for a payload buffer: `None` when the
/// options are inconsistent, the container or manifest is rejected, the block
/// size is missing or illegal, a requested partition does not exist, strict
/// mode misses a hash, or any selected partition's extraction fails;
/// otherwise the selected partitions' outputs in manifest order.
pub open spec fn spec_run(
    names: Seq<Seq<u8>>,
    threads: Option<usize>,
    skipv: bool,
    strict: bool,
    sanity: bool,
    print: bool,
    bytes: Seq<u8>,
) -> Option<Seq<SpecPartitionOutput>> {
    if !spec_config_ok(threads, skipv, strict) {
        None
    } else if crate::payload::parse_outcome(bytes) is Some {
        None
    } else {
        let hl = crate::payload::spec_header_len(bytes);
        let mbytes = bytes.subrange(hl, hl + crate::payload::be64_at(bytes, 12));
        let data = bytes.subrange(crate::payload::spec_data_start(bytes), bytes.len() as int);
        match crate::manifest::spec_manifest(mbytes) {
            None => None,
            Some(m) => if m.block_size is None {
                None
            } else if !crate::valid_block_size(m.block_size.unwrap()) {
                None
            } else if !names_all_found(names, m.partitions) {
                None
            } else if strict && !strict_hashes_ok(names, m.partitions) {
                None
            } else {
                spec_outputs(
                    m.partitions,
                    names,
                    data,
                    m.block_size.unwrap(),
                    !skipv,
                    strict,
                    sanity,
                    print,
                    0,
                )
            },
        }
    }
}

impl Cmd {
    /// The requested partition names, as byte strings.
    pub open spec fn sel_names(&self) -> Seq<Seq<u8>> {
        self.partitions@.map_values(|n: Vec<u8>| n@)
    }

    /// Checks the requested options for consistency: the worker count must be
    /// 0 (the default) or at most 256, and strict mode cannot be combined
    /// with skipped verification.
    pub fn validate_config(&self) -> (r: Result<(), ExtractError>)
        ensures
            r is Ok <==> spec_config_ok(self.threads, self.skip_verify, self.strict),
            r is Err ==> r == Err::<(), ExtractError>(ExtractError::ConfigError),
    {
        match self.threads {
            Some(t) => {
                if t > 256 {
                    return Err(ExtractError::ConfigError);
                }
            },
            None => {},
        }
        if self.strict && self.skip_verify {
            return Err(ExtractError::ConfigError);
        }
        Ok(())
    }

    /// Whether this partition is among the requested ones (or all were).
    fn is_selected(&self, part: &crate::manifest::PartitionUpdate) -> (r: bool)
        ensures
            r == spec_selected(self.sel_names(), part@),
    {
        let n = self.partitions.len();
        if n == 0 {
            return true;
        }
        let name = match &part.partition_name {
            Some(nm) => nm,
            None => {
                return false;
            },
        };
        let mut j: usize = 0;
        while j < n
            invariant
                j <= n == self.partitions@.len(),
                part@.partition_name == Some(name@),
                forall|k: int| 0 <= k < j ==> self.sel_names()[k] != name@,
            decreases n - j,
        {
            if crate::hashing::compare_bytes(self.partitions[j].as_slice(), name.as_slice()) {
                proof {
                    assert(self.sel_names()[j as int] == name@);
                }
                return true;
            }
            proof {
                assert(self.sel_names()[j as int] == self.partitions@[j as int]@);
            }
            j = j + 1;
        }
        proof {
            assert(!self.sel_names().contains(name@));
        }
        false
    }
}

impl Cmd {
    /// Do all requested partition names occur in the manifest?
    fn check_selection(&self, m: &crate::manifest::Manifest) -> (r: bool)
        ensures
            r == names_all_found(self.sel_names(), m@.partitions),
    {
        let ghost psv = m@.partitions;
        let n = self.partitions.len();
        let pc = m.partitions.len();
        let mut j: usize = 0;
        while j < n
            invariant
                j <= n == self.partitions@.len(),
                pc == m.partitions@.len(),
                psv == m@.partitions,
                forall|jj: int| 0 <= jj < j ==> name_found(psv, #[trigger] self.sel_names()[jj]),
            decreases n - j,
        {
            let name = &self.partitions[j];
            let mut found = false;
            let mut i: usize = 0;
            while i < pc
                invariant
                    i <= pc == m.partitions@.len(),
                    psv == m@.partitions,
                    name@ == self.partitions@[j as int]@,
                    found ==> name_found(psv, name@),
                    !found ==> forall|ii: int|
                        0 <= ii < i ==> (#[trigger] psv[ii].partition_name) != Some(name@),
                decreases pc - i,
            {
                if !found {
                    match &m.partitions[i].partition_name {
                        Some(nm) => {
                            if crate::hashing::compare_bytes(nm.as_slice(), name.as_slice()) {
                                proof {
                                    assert(psv[i as int].partition_name == Some(name@));
                                }
                                found = true;
                            }
                        },
                        None => {},
                    }
                }
                i = i + 1;
            }
            if !found {
                proof {
                    assert(self.sel_names()[j as int] == name@);
                    assert(!name_found(psv, name@));
                    assert(!names_all_found(self.sel_names(), psv));
                }
                return false;
            }
            proof {
                assert(self.sel_names()[j as int] == name@);
            }
            j = j + 1;
        }
        proof {
            assert(self.sel_names().len() == n);
            assert(names_all_found(self.sel_names(), psv));
        }
        true
    }

    /// Does every selected partition carry the hashes strict mode demands?
    fn strict_precheck(&self, m: &crate::manifest::Manifest) -> (r: bool)
        ensures
            r == strict_hashes_ok(self.sel_names(), m@.partitions),
    {
        let ghost psv = m@.partitions;
        let pc = m.partitions.len();
        let mut i: usize = 0;
        while i < pc
            invariant
                i <= pc == m.partitions@.len(),
                psv == m@.partitions,
                forall|ii: int|
                    0 <= ii < i && spec_selected(self.sel_names(), #[trigger] psv[ii])
                        ==> strict_part_ok(psv[ii]),
            decreases pc - i,
        {
            let part = &m.partitions[i];
            proof {
                assert(part@ == psv[i as int]);
            }
            if self.is_selected(part) {
                let hash_ok = match &part.new_partition_info {
                    Some(info) => match &info.hash {
                        Some(_) => true,
                        None => false,
                    },
                    None => false,
                };
                if !hash_ok {
                    proof {
                        assert(!strict_part_ok(psv[i as int]));
                        assert(spec_selected(self.sel_names(), psv[i as int]));
                        assert(!strict_hashes_ok(self.sel_names(), psv));
                    }
                    return false;
                }
                let oc = part.operations.len();
                let mut k: usize = 0;
                while k < oc
                    invariant
                        k <= oc == part.operations@.len(),
                        psv == m@.partitions,
                        i < psv.len(),
                        part@ == psv[i as int],
                        spec_selected(self.sel_names(), psv[i as int]),
                        forall|kk: int|
                            0 <= kk < k ==> (((#[trigger] psv[i as int].operations[kk]).data_length
                                is Some && psv[i as int].operations[kk].data_length.unwrap() > 0)
                                ==> psv[i as int].operations[kk].data_sha256_hash is Some),
                    decreases oc - k,
                {
                    let op = &part.operations[k];
                    proof {
                        assert(psv[i as int].operations[k as int] == op@);
                    }
                    let needs = match op.data_length {
                        Some(l) => l > 0,
                        None => false,
                    };
                    if needs {
                        match &op.data_sha256_hash {
                            Some(_) => {},
                            None => {
                                proof {
                                    assert(op@.data_length is Some && op@.data_length.unwrap() > 0);
                                    assert(!strict_part_ok(psv[i as int]));
                                    assert(spec_selected(self.sel_names(), psv[i as int]));
                                    assert(!strict_hashes_ok(self.sel_names(), psv));
                                }
                                return false;
                            },
                        }
                    }
                    k = k + 1;
                }
            }
            i = i + 1;
        }
        true
    }

    /// Runs a whole extraction over a payload buffer: checks the options,
    /// parses the container, decodes the manifest, checks the block size, the
    /// selection and strict mode's hashes, and extracts every selected
    /// partition in manifest order. The outputs are exactly the ones the
    /// buffer denotes, in manifest order, with stable ranks.
    pub fn run_extract(&self, bytes: &[u8]) -> (r: Result<Vec<PartitionOutput>, ExtractError>)
        ensures
            r is Ok <==> spec_run(
                self.sel_names(),
                self.threads,
                self.skip_verify,
                self.strict,
                self.plausibility_checks,
                self.print_hash,
                bytes@,
            ) is Some,
            r is Ok ==> outputs_view(r.unwrap()@) == spec_run(
                self.sel_names(),
                self.threads,
                self.skip_verify,
                self.strict,
                self.plausibility_checks,
                self.print_hash,
                bytes@,
            ).unwrap(),
    {
        match self.validate_config() {
            Ok(_) => {},
            Err(e) => {
                return Err(e);
            },
        }
        let payload = match crate::payload::Payload::parse(bytes) {
            Ok(p) => p,
            Err(e) => {
                return Err(ExtractError::BadInput(e));
            },
        };
        let m = match crate::manifest::decode_manifest(payload.manifest) {
            Ok(m) => m,
            Err(e) => {
                return Err(e);
            },
        };
        let bs = match m.block_size {
            Some(b) => b,
            None => {
                return Err(ExtractError::InvalidManifest(ManifestFault::NoBlockSize));
            },
        };
        if !crate::check_block_size(bs) {
            return Err(ExtractError::Corrupt);
        }
        if !self.check_selection(&m) {
            return Err(ExtractError::ConfigError);
        }
        if self.strict {
            if !self.strict_precheck(&m) {
                return Err(ExtractError::MissingHash);
            }
        }
        let data = payload.data;
        let ghost psv = m@.partitions;
        let mut out: Vec<PartitionOutput> = Vec::new();
        let mut order: usize = 0;
        let n = m.partitions.len();
        let mut i: usize = 0;
        proof {
            assert(psv.skip(0) =~= psv);
            assert(outputs_view(out@) =~= Seq::<SpecPartitionOutput>::empty());
        }
        while i < n
            invariant
                i <= n == m.partitions@.len(),
                psv == m@.partitions,
                order == out@.len(),
                order <= i,
                spec_config_ok(self.threads, self.skip_verify, self.strict),
                crate::payload::parse_outcome(bytes@) is None,
                crate::manifest::spec_manifest(
                    bytes@.subrange(
                        crate::payload::spec_header_len(bytes@),
                        crate::payload::spec_header_len(bytes@) + crate::payload::be64_at(
                            bytes@,
                            12,
                        ),
                    ),
                ) == Some(m@),
                m@.block_size == Some(bs),
                crate::valid_block_size(bs),
                names_all_found(self.sel_names(), psv),
                self.strict ==> strict_hashes_ok(self.sel_names(), psv),
                data@ == bytes@.subrange(
                    crate::payload::spec_data_start(bytes@),
                    bytes@.len() as int,
                ),
                spec_outputs(
                    psv,
                    self.sel_names(),
                    data@,
                    bs,
                    self.verify_enabled(),
                    self.strict,
                    self.plausibility_checks,
                    self.print_hash,
                    0,
                ) == (match spec_outputs(
                    psv.skip(i as int),
                    self.sel_names(),
                    data@,
                    bs,
                    self.verify_enabled(),
                    self.strict,
                    self.plausibility_checks,
                    self.print_hash,
                    order as int,
                ) {
                    Some(rest) => Some(outputs_view(out@) + rest),
                    None => None::<Seq<SpecPartitionOutput>>,
                }),
            decreases n - i,
        {
            let part = &m.partitions[i];
            proof {
                assert(psv.skip(i as int)[0] == part@);
                assert(psv.skip(i as int).skip(1) =~= psv.skip(i as int + 1));
            }
            if self.is_selected(part) {
                let name = match &part.partition_name {
                    Some(nm) => slice_to_vec(nm.as_slice()),
                    None => {
                        return Err(ExtractError::InvalidManifest(ManifestFault::MissingField));
                    },
                };
                let image = match self.extract_partition(part, data, bs) {
                    Ok(img) => img,
                    Err(e) => {
                        return Err(e);
                    },
                };
                let hash_hex = if self.print_hash {
                    Some(sha256_hex(image.as_slice()))
                } else {
                    None
                };
                let ghost before = out@;
                let po = PartitionOutput { name, order, image, hash_hex };
                out.push(po);
                proof {
                    let rest1 = spec_outputs(
                        psv.skip(i as int + 1),
                        self.sel_names(),
                        data@,
                        bs,
                        self.verify_enabled(),
                        self.strict,
                        self.plausibility_checks,
                        self.print_hash,
                        order as int + 1,
                    );
                    if rest1 is Some {
                        assert(outputs_view(out@) =~= outputs_view(before).push(po@));
                        assert(outputs_view(before) + (seq![po@] + rest1.unwrap())
                            =~= outputs_view(out@) + rest1.unwrap());
                    }
                }
                order = order + 1;
            }
            i = i + 1;
        }
        proof {
            assert(psv.skip(n as int) =~= Seq::<SpecPartitionUpdate>::empty());
            assert(outputs_view(out@) + Seq::<SpecPartitionOutput>::empty() =~= outputs_view(
                out@,
            ));
        }
        Ok(out)
    }
}

/// A partition is labelled `Full` when every operation writes self-contained
/// bytes; one delta operation makes it `Incremental`.
pub open spec fn spec_partition_is_full(p: SpecPartitionUpdate) -> bool {
    forall|k: int|
        0 <= k < p.operations.len() ==> (#[trigger] p.operations[k]).op_type is Some
            && spec_op_is_full(p.operations[k].op_type.unwrap())
}

/// One row of the partition listing.
#[derive(Debug)]
pub struct PartitionListEntry {
    /// The partition's name, when the manifest declares one.
    pub name: Option<Vec<u8>>,
    /// The declared output size, when the manifest declares one.
    pub size: Option<u64>,
    /// Whether every operation of the partition is self-contained.
    pub is_full: bool,
}

/// Lists every partition with its declared size and its `Full` or
/// `Incremental` label, in manifest order.
pub fn list_partitions(m: &crate::manifest::Manifest) -> (r: Vec<PartitionListEntry>)
    ensures
        r@.len() == m@.partitions.len(),
        forall|i: int|
            0 <= i < r@.len() ==> {
                let p = m@.partitions[i];
                &&& (#[trigger] r@[i]).is_full == spec_partition_is_full(p)
                &&& (match r@[i].name {
                    Some(ref nm) => p.partition_name == Some(nm@),
                    None => p.partition_name is None,
                })
                &&& r@[i].size == (match p.new_partition_info {
                    Some(info) => info.size,
                    None => None::<u64>,
                })
            },
{
    let ghost psv = m@.partitions;
    let n = m.partitions.len();
    let mut out: Vec<PartitionListEntry> = Vec::new();
    let mut i: usize = 0;
    while i < n
        invariant
            i <= n == m.partitions@.len(),
            psv == m@.partitions,
            out@.len() == i,
            forall|ii: int|
                0 <= ii < i ==> {
                    let p = psv[ii];
                    &&& (#[trigger] out@[ii]).is_full == spec_partition_is_full(p)
                    &&& (match out@[ii].name {
                        Some(ref nm) => p.partition_name == Some(nm@),
                        None => p.partition_name is None,
                    })
                    &&& out@[ii].size == (match p.new_partition_info {
                        Some(info) => info.size,
                        None => None::<u64>,
                    })
                },
        decreases n - i,
    {
        let part = &m.partitions[i];
        proof {
            assert(part@ == psv[i as int]);
        }
        let oc = part.operations.len();
        let mut full = true;
        let mut k: usize = 0;
        while k < oc
            invariant
                k <= oc == part.operations@.len(),
                psv == m@.partitions,
                i < psv.len(),
                part@ == psv[i as int],
                full == (forall|kk: int|
                    0 <= kk < k ==> (#[trigger] psv[i as int].operations[kk]).op_type is Some
                        && spec_op_is_full(psv[i as int].operations[kk].op_type.unwrap())),
            decreases oc - k,
        {
            let op = &part.operations[k];
            proof {
                assert(psv[i as int].operations[k as int] == op@);
            }
            let op_full = match op.op_type {
                Some(t) => match op_kind(t) {
                    OpKind::Replace | OpKind::ReplaceBz | OpKind::ReplaceXz | OpKind::Zero
                        | OpKind::Discard => true,
                    _ => false,
                },
                None => false,
            };
            if !op_full {
                full = false;
            }
            k = k + 1;
        }
        let name = match &part.partition_name {
            Some(nm) => Some(slice_to_vec(nm.as_slice())),
            None => None,
        };
        let size = match &part.new_partition_info {
            Some(info) => info.size,
            None => None,
        };
        out.push(PartitionListEntry { name, size, is_full: full });
        i = i + 1;
    }
    out
}

} // verus!
