use vstd::prelude::*;
use vstd::slice::{slice_subrange, slice_to_vec};
use crate::errors::ExtractError;
use crate::wire::{read_varint, skip_field, spec_skip, spec_varint};

verus! {

// The manifest is one protocol-buffer message. Only the fields the
// extraction reads are kept; every other field is skipped by its wire type.
// Scalar fields follow last-one-wins; repeated fields append in order.

/// One destination extent: a block-addressed range of the output partition.
#[derive(Clone, Copy, PartialEq, Eq, Structural, Debug)]
pub struct Extent {
    /// First block of the range.
    pub start_block: Option<u64>,
    /// Number of blocks in the range; zero is a no-op range.
    pub num_blocks: Option<u64>,
}

/// Declared facts about one partition's output image.
#[derive(Clone, PartialEq, Eq, Debug)]
pub struct PartitionInfo {
    /// Output size in bytes.
    pub size: Option<u64>,
    /// SHA-256 of the whole output image.
    pub hash: Option<Vec<u8>>,
}

/// One instruction for producing part of a partition.
#[derive(Clone, PartialEq, Eq, Debug)]
pub struct InstallOperation {
    /// The operation type's wire value.
    pub op_type: Option<u64>,
    /// Offset of this operation's input within the payload data region.
    pub data_offset: Option<u64>,
    /// Length of this operation's input.
    pub data_length: Option<u64>,
    /// SHA-256 of the raw input bytes, before any decompression.
    pub data_sha256_hash: Option<Vec<u8>>,
    /// Where the produced bytes land.
    pub dst_extents: Vec<Extent>,
}

/// One partition's name, declared output, and operations.
#[derive(Clone, PartialEq, Eq, Debug)]
pub struct PartitionUpdate {
    /// The partition's name; the output file is `<name>.img`.
    pub partition_name: Option<Vec<u8>>,
    /// Facts about the output image.
    pub new_partition_info: Option<PartitionInfo>,
    /// The operations that produce the image.
    pub operations: Vec<InstallOperation>,
}

/// The decoded manifest: the block size and the partitions.
#[derive(Clone, PartialEq, Eq, Debug)]
pub struct Manifest {
    /// The unit of extent addressing, in bytes.
    pub block_size: Option<u32>,
    /// The partitions in manifest order.
    pub partitions: Vec<PartitionUpdate>,
}

/// Mathematical form of `PartitionInfo`.
pub struct SpecPartitionInfo {
    pub size: Option<u64>,
    pub hash: Option<Seq<u8>>,
}

/// Mathematical form of `InstallOperation`.
pub struct SpecInstallOperation {
    pub op_type: Option<u64>,
    pub data_offset: Option<u64>,
    pub data_length: Option<u64>,
    pub data_sha256_hash: Option<Seq<u8>>,
    pub dst_extents: Seq<Extent>,
}

/// Mathematical form of `PartitionUpdate`.
pub struct SpecPartitionUpdate {
    pub partition_name: Option<Seq<u8>>,
    pub new_partition_info: Option<SpecPartitionInfo>,
    pub operations: Seq<SpecInstallOperation>,
}

/// Mathematical form of `Manifest`.
pub struct SpecManifest {
    pub block_size: Option<u32>,
    pub partitions: Seq<SpecPartitionUpdate>,
}

impl View for PartitionInfo {
    type V = SpecPartitionInfo;

    open spec fn view(&self) -> SpecPartitionInfo {
        SpecPartitionInfo {
            size: self.size,
            hash: match self.hash {
                Some(h) => Some(h@),
                None => None,
            },
        }
    }
}

impl View for InstallOperation {
    type V = SpecInstallOperation;

    open spec fn view(&self) -> SpecInstallOperation {
        SpecInstallOperation {
            op_type: self.op_type,
            data_offset: self.data_offset,
            data_length: self.data_length,
            data_sha256_hash: match self.data_sha256_hash {
                Some(h) => Some(h@),
                None => None,
            },
            dst_extents: self.dst_extents@,
        }
    }
}

impl View for PartitionUpdate {
    type V = SpecPartitionUpdate;

    open spec fn view(&self) -> SpecPartitionUpdate {
        SpecPartitionUpdate {
            partition_name: match self.partition_name {
                Some(n) => Some(n@),
                None => None,
            },
            new_partition_info: match self.new_partition_info {
                Some(ref i) => Some(i@),
                None => None,
            },
            operations: self.operations@.map_values(|o: InstallOperation| o@),
        }
    }
}

impl View for Manifest {
    type V = SpecManifest;

    open spec fn view(&self) -> SpecManifest {
        SpecManifest {
            block_size: self.block_size,
            partitions: self.partitions@.map_values(|p: PartitionUpdate| p@),
        }
    }
}

/// An extent record with no field seen yet.
pub open spec fn extent_init() -> Extent {
    Extent { start_block: None, num_blocks: None }
}

/// Decodes the extent message in `[i, end)`, fields already seen in `acc`.
pub open spec fn spec_extent_msg(s: Seq<u8>, i: int, end: int, acc: Extent) -> Option<Extent>
    decreases end - i,
{
    if i >= end {
        Some(acc)
    } else {
        match spec_varint(s, i, end) {
            None => None,
            Some((tag, p)) => if p <= i {
                None
            } else {
                let field = tag >> 3;
                let wt = tag & 7;
                if field == 1 && wt == 0 {
                    match spec_varint(s, p, end) {
                        None => None,
                        Some((v, q)) => if q <= p || q > end {
                            None
                        } else {
                            spec_extent_msg(
                                s,
                                q,
                                end,
                                Extent { start_block: Some(v), num_blocks: acc.num_blocks },
                            )
                        },
                    }
                } else if field == 2 && wt == 0 {
                    match spec_varint(s, p, end) {
                        None => None,
                        Some((v, q)) => if q <= p || q > end {
                            None
                        } else {
                            spec_extent_msg(
                                s,
                                q,
                                end,
                                Extent { start_block: acc.start_block, num_blocks: Some(v) },
                            )
                        },
                    }
                } else {
                    match spec_skip(s, p, end, wt) {
                        None => None,
                        Some(q) => if q <= p || q > end {
                            None
                        } else {
                            spec_extent_msg(s, q, end, acc)
                        },
                    }
                }
            },
        }
    }
}

/// A partition-info record with no field seen yet.
pub open spec fn info_init() -> SpecPartitionInfo {
    SpecPartitionInfo { size: None, hash: None }
}

/// Decodes the partition-info message in `[i, end)`.
pub open spec fn spec_info_msg(s: Seq<u8>, i: int, end: int, acc: SpecPartitionInfo) -> Option<
    SpecPartitionInfo,
>
    decreases end - i,
{
    if i >= end {
        Some(acc)
    } else {
        match spec_varint(s, i, end) {
            None => None,
            Some((tag, p)) => if p <= i {
                None
            } else {
                let field = tag >> 3;
                let wt = tag & 7;
                if field == 1 && wt == 0 {
                    match spec_varint(s, p, end) {
                        None => None,
                        Some((v, q)) => if q <= p || q > end {
                            None
                        } else {
                            spec_info_msg(
                                s,
                                q,
                                end,
                                SpecPartitionInfo { size: Some(v), hash: acc.hash },
                            )
                        },
                    }
                } else if field == 2 && wt == 2 {
                    match spec_varint(s, p, end) {
                        None => None,
                        Some((len, q)) => if q <= p || q + len > end {
                            None
                        } else {
                            spec_info_msg(
                                s,
                                q + len,
                                end,
                                SpecPartitionInfo {
                                    size: acc.size,
                                    hash: Some(s.subrange(q, q + len)),
                                },
                            )
                        },
                    }
                } else {
                    match spec_skip(s, p, end, wt) {
                        None => None,
                        Some(q) => if q <= p || q > end {
                            None
                        } else {
                            spec_info_msg(s, q, end, acc)
                        },
                    }
                }
            },
        }
    }
}

/// An operation record with no field seen yet.
pub open spec fn op_init() -> SpecInstallOperation {
    SpecInstallOperation {
        op_type: None,
        data_offset: None,
        data_length: None,
        data_sha256_hash: None,
        dst_extents: Seq::empty(),
    }
}

/// Decodes the install-operation message in `[i, end)`.
pub open spec fn spec_op_msg(s: Seq<u8>, i: int, end: int, acc: SpecInstallOperation) -> Option<
    SpecInstallOperation,
>
    decreases end - i,
{
    if i >= end {
        Some(acc)
    } else {
        match spec_varint(s, i, end) {
            None => None,
            Some((tag, p)) => if p <= i {
                None
            } else {
                let field = tag >> 3;
                let wt = tag & 7;
                if (field == 1 || field == 2 || field == 3) && wt == 0 {
                    match spec_varint(s, p, end) {
                        None => None,
                        Some((v, q)) => if q <= p || q > end {
                            None
                        } else {
                            spec_op_msg(
                                s,
                                q,
                                end,
                                SpecInstallOperation {
                                    op_type: if field == 1 {
                                        Some(v)
                                    } else {
                                        acc.op_type
                                    },
                                    data_offset: if field == 2 {
                                        Some(v)
                                    } else {
                                        acc.data_offset
                                    },
                                    data_length: if field == 3 {
                                        Some(v)
                                    } else {
                                        acc.data_length
                                    },
                                    data_sha256_hash: acc.data_sha256_hash,
                                    dst_extents: acc.dst_extents,
                                },
                            )
                        },
                    }
                } else if field == 6 && wt == 2 {
                    match spec_varint(s, p, end) {
                        None => None,
                        Some((len, q)) => if q <= p || q + len > end {
                            None
                        } else {
                            match spec_extent_msg(s, q, q + len, extent_init()) {
                                None => None,
                                Some(e) => spec_op_msg(
                                    s,
                                    q + len,
                                    end,
                                    SpecInstallOperation {
                                        op_type: acc.op_type,
                                        data_offset: acc.data_offset,
                                        data_length: acc.data_length,
                                        data_sha256_hash: acc.data_sha256_hash,
                                        dst_extents: acc.dst_extents.push(e),
                                    },
                                ),
                            }
                        },
                    }
                } else if field == 8 && wt == 2 {
                    match spec_varint(s, p, end) {
                        None => None,
                        Some((len, q)) => if q <= p || q + len > end {
                            None
                        } else {
                            spec_op_msg(
                                s,
                                q + len,
                                end,
                                SpecInstallOperation {
                                    op_type: acc.op_type,
                                    data_offset: acc.data_offset,
                                    data_length: acc.data_length,
                                    data_sha256_hash: Some(s.subrange(q, q + len)),
                                    dst_extents: acc.dst_extents,
                                },
                            )
                        },
                    }
                } else {
                    match spec_skip(s, p, end, wt) {
                        None => None,
                        Some(q) => if q <= p || q > end {
                            None
                        } else {
                            spec_op_msg(s, q, end, acc)
                        },
                    }
                }
            },
        }
    }
}

/// A partition record with no field seen yet.
pub open spec fn partition_init() -> SpecPartitionUpdate {
    SpecPartitionUpdate { partition_name: None, new_partition_info: None, operations: Seq::empty() }
}

/// Decodes the partition-update message in `[i, end)`.
pub open spec fn spec_partition_msg(
    s: Seq<u8>,
    i: int,
    end: int,
    acc: SpecPartitionUpdate,
) -> Option<SpecPartitionUpdate>
    decreases end - i,
{
    if i >= end {
        Some(acc)
    } else {
        match spec_varint(s, i, end) {
            None => None,
            Some((tag, p)) => if p <= i {
                None
            } else {
                let field = tag >> 3;
                let wt = tag & 7;
                if field == 1 && wt == 2 {
                    match spec_varint(s, p, end) {
                        None => None,
                        Some((len, q)) => if q <= p || q + len > end {
                            None
                        } else {
                            spec_partition_msg(
                                s,
                                q + len,
                                end,
                                SpecPartitionUpdate {
                                    partition_name: Some(s.subrange(q, q + len)),
                                    new_partition_info: acc.new_partition_info,
                                    operations: acc.operations,
                                },
                            )
                        },
                    }
                } else if field == 7 && wt == 2 {
                    match spec_varint(s, p, end) {
                        None => None,
                        Some((len, q)) => if q <= p || q + len > end {
                            None
                        } else {
                            match spec_info_msg(s, q, q + len, info_init()) {
                                None => None,
                                Some(info) => spec_partition_msg(
                                    s,
                                    q + len,
                                    end,
                                    SpecPartitionUpdate {
                                        partition_name: acc.partition_name,
                                        new_partition_info: Some(info),
                                        operations: acc.operations,
                                    },
                                ),
                            }
                        },
                    }
                } else if field == 8 && wt == 2 {
                    match spec_varint(s, p, end) {
                        None => None,
                        Some((len, q)) => if q <= p || q + len > end {
                            None
                        } else {
                            match spec_op_msg(s, q, q + len, op_init()) {
                                None => None,
                                Some(op) => spec_partition_msg(
                                    s,
                                    q + len,
                                    end,
                                    SpecPartitionUpdate {
                                        partition_name: acc.partition_name,
                                        new_partition_info: acc.new_partition_info,
                                        operations: acc.operations.push(op),
                                    },
                                ),
                            }
                        },
                    }
                } else {
                    match spec_skip(s, p, end, wt) {
                        None => None,
                        Some(q) => if q <= p || q > end {
                            None
                        } else {
                            spec_partition_msg(s, q, end, acc)
                        },
                    }
                }
            },
        }
    }
}

/// A manifest record with no field seen yet.
pub open spec fn manifest_init() -> SpecManifest {
    SpecManifest { block_size: None, partitions: Seq::empty() }
}

/// Decodes the manifest message in `[i, end)`.
pub open spec fn spec_manifest_msg(s: Seq<u8>, i: int, end: int, acc: SpecManifest) -> Option<
    SpecManifest,
>
    decreases end - i,
{
    if i >= end {
        Some(acc)
    } else {
        match spec_varint(s, i, end) {
            None => None,
            Some((tag, p)) => if p <= i {
                None
            } else {
                let field = tag >> 3;
                let wt = tag & 7;
                if field == 3 && wt == 0 {
                    match spec_varint(s, p, end) {
                        None => None,
                        Some((v, q)) => if q <= p || q > end || v > 0xffffffff {
                            None
                        } else {
                            spec_manifest_msg(
                                s,
                                q,
                                end,
                                SpecManifest {
                                    block_size: Some(v as u32),
                                    partitions: acc.partitions,
                                },
                            )
                        },
                    }
                } else if field == 13 && wt == 2 {
                    match spec_varint(s, p, end) {
                        None => None,
                        Some((len, q)) => if q <= p || q + len > end {
                            None
                        } else {
                            match spec_partition_msg(s, q, q + len, partition_init()) {
                                None => None,
                                Some(part) => spec_manifest_msg(
                                    s,
                                    q + len,
                                    end,
                                    SpecManifest {
                                        block_size: acc.block_size,
                                        partitions: acc.partitions.push(part),
                                    },
                                ),
                            }
                        },
                    }
                } else {
                    match spec_skip(s, p, end, wt) {
                        None => None,
                        Some(q) => if q <= p || q > end {
                            None
                        } else {
                            spec_manifest_msg(s, q, end, acc)
                        },
                    }
                }
            },
        }
    }
}

/// The record the manifest bytes denote, or `None` when they are malformed.
pub open spec fn spec_manifest(s: Seq<u8>) -> Option<SpecManifest> {
    spec_manifest_msg(s, 0, s.len() as int, manifest_init())
}

/// Decodes one extent message from `[start, end)`.
pub fn decode_extent(data: &[u8], start: usize, end: usize) -> (r: Option<Extent>)
    requires
        start <= end <= data@.len(),
    ensures
        match r {
            Some(e) => spec_extent_msg(data@, start as int, end as int, extent_init()) == Some(e),
            None => spec_extent_msg(data@, start as int, end as int, extent_init()) is None,
        },
{
    let ghost s = data@;
    let mut acc = Extent { start_block: None, num_blocks: None };
    let mut i: usize = start;
    loop
        invariant
            start <= i <= end <= data@.len(),
            data@ == s,
            spec_extent_msg(s, start as int, end as int, extent_init()) == spec_extent_msg(
                s,
                i as int,
                end as int,
                acc,
            ),
        decreases end - i,
    {
        if i >= end {
            return Some(acc);
        }
        let (tag, p) = match read_varint(data, i, end) {
            Some(t) => t,
            None => {
                return None;
            },
        };
        let field = tag >> 3u64;
        let wt = tag & 7;
        if field == 1 && wt == 0 {
            let (v, q) = match read_varint(data, p, end) {
                Some(t) => t,
                None => {
                    return None;
                },
            };
            acc = Extent { start_block: Some(v), num_blocks: acc.num_blocks };
            i = q;
        } else if field == 2 && wt == 0 {
            let (v, q) = match read_varint(data, p, end) {
                Some(t) => t,
                None => {
                    return None;
                },
            };
            acc = Extent { start_block: acc.start_block, num_blocks: Some(v) };
            i = q;
        } else {
            let q = match skip_field(data, p, end, wt) {
                Some(t) => t,
                None => {
                    return None;
                },
            };
            i = q;
        }
    }
}

/// Decodes one partition-info message from `[start, end)`.
pub fn decode_info(data: &[u8], start: usize, end: usize) -> (r: Option<PartitionInfo>)
    requires
        start <= end <= data@.len(),
    ensures
        match r {
            Some(info) => spec_info_msg(data@, start as int, end as int, info_init()) == Some(
                info@,
            ),
            None => spec_info_msg(data@, start as int, end as int, info_init()) is None,
        },
{
    let ghost s = data@;
    let mut acc = PartitionInfo { size: None, hash: None };
    let mut i: usize = start;
    loop
        invariant
            start <= i <= end <= data@.len(),
            data@ == s,
            spec_info_msg(s, start as int, end as int, info_init()) == spec_info_msg(
                s,
                i as int,
                end as int,
                acc@,
            ),
        decreases end - i,
    {
        if i >= end {
            return Some(acc);
        }
        let (tag, p) = match read_varint(data, i, end) {
            Some(t) => t,
            None => {
                return None;
            },
        };
        let field = tag >> 3u64;
        let wt = tag & 7;
        if field == 1 && wt == 0 {
            let (v, q) = match read_varint(data, p, end) {
                Some(t) => t,
                None => {
                    return None;
                },
            };
            acc = PartitionInfo { size: Some(v), hash: acc.hash };
            i = q;
        } else if field == 2 && wt == 2 {
            let (len, q) = match read_varint(data, p, end) {
                Some(t) => t,
                None => {
                    return None;
                },
            };
            if len > (end - q) as u64 {
                return None;
            }
            let stop = q + (len as usize);
            let bytes = slice_to_vec(slice_subrange(data, q, stop));
            acc = PartitionInfo { size: acc.size, hash: Some(bytes) };
            i = stop;
        } else {
            let q = match skip_field(data, p, end, wt) {
                Some(t) => t,
                None => {
                    return None;
                },
            };
            i = q;
        }
    }
}

/// Decodes one install-operation message from `[start, end)`.
pub fn decode_operation(data: &[u8], start: usize, end: usize) -> (r: Option<InstallOperation>)
    requires
        start <= end <= data@.len(),
    ensures
        match r {
            Some(op) => spec_op_msg(data@, start as int, end as int, op_init()) == Some(op@),
            None => spec_op_msg(data@, start as int, end as int, op_init()) is None,
        },
{
    let ghost s = data@;
    let mut acc = InstallOperation {
        op_type: None,
        data_offset: None,
        data_length: None,
        data_sha256_hash: None,
        dst_extents: Vec::new(),
    };
    let mut i: usize = start;
    loop
        invariant
            start <= i <= end <= data@.len(),
            data@ == s,
            spec_op_msg(s, start as int, end as int, op_init()) == spec_op_msg(
                s,
                i as int,
                end as int,
                acc@,
            ),
        decreases end - i,
    {
        if i >= end {
            return Some(acc);
        }
        let (tag, p) = match read_varint(data, i, end) {
            Some(t) => t,
            None => {
                return None;
            },
        };
        let field = tag >> 3u64;
        let wt = tag & 7;
        if (field == 1 || field == 2 || field == 3) && wt == 0 {
            let (v, q) = match read_varint(data, p, end) {
                Some(t) => t,
                None => {
                    return None;
                },
            };
            if field == 1 {
                acc.op_type = Some(v);
            } else if field == 2 {
                acc.data_offset = Some(v);
            } else {
                acc.data_length = Some(v);
            }
            i = q;
        } else if field == 6 && wt == 2 {
            let (len, q) = match read_varint(data, p, end) {
                Some(t) => t,
                None => {
                    return None;
                },
            };
            if len > (end - q) as u64 {
                return None;
            }
            let stop = q + (len as usize);
            let e = match decode_extent(data, q, stop) {
                Some(t) => t,
                None => {
                    return None;
                },
            };
            let ghost before = acc@;
            acc.dst_extents.push(e);
            proof {
                assert(acc@.dst_extents =~= before.dst_extents.push(e));
            }
            i = stop;
        } else if field == 8 && wt == 2 {
            let (len, q) = match read_varint(data, p, end) {
                Some(t) => t,
                None => {
                    return None;
                },
            };
            if len > (end - q) as u64 {
                return None;
            }
            let stop = q + (len as usize);
            let bytes = slice_to_vec(slice_subrange(data, q, stop));
            acc.data_sha256_hash = Some(bytes);
            i = stop;
        } else {
            let q = match skip_field(data, p, end, wt) {
                Some(t) => t,
                None => {
                    return None;
                },
            };
            i = q;
        }
    }
}

/// Decodes one partition-update message from `[start, end)`.
pub fn decode_partition(data: &[u8], start: usize, end: usize) -> (r: Option<PartitionUpdate>)
    requires
        start <= end <= data@.len(),
    ensures
        match r {
            Some(part) => spec_partition_msg(data@, start as int, end as int, partition_init())
                == Some(part@),
            None => spec_partition_msg(data@, start as int, end as int, partition_init()) is None,
        },
{
    let ghost s = data@;
    let mut acc = PartitionUpdate {
        partition_name: None,
        new_partition_info: None,
        operations: Vec::new(),
    };
    proof {
        assert(acc@.operations =~= partition_init().operations);
    }
    let mut i: usize = start;
    loop
        invariant
            start <= i <= end <= data@.len(),
            data@ == s,
            spec_partition_msg(s, start as int, end as int, partition_init())
                == spec_partition_msg(s, i as int, end as int, acc@),
        decreases end - i,
    {
        if i >= end {
            return Some(acc);
        }
        let (tag, p) = match read_varint(data, i, end) {
            Some(t) => t,
            None => {
                return None;
            },
        };
        let field = tag >> 3u64;
        let wt = tag & 7;
        if field == 1 && wt == 2 {
            let (len, q) = match read_varint(data, p, end) {
                Some(t) => t,
                None => {
                    return None;
                },
            };
            if len > (end - q) as u64 {
                return None;
            }
            let stop = q + (len as usize);
            let bytes = slice_to_vec(slice_subrange(data, q, stop));
            acc.partition_name = Some(bytes);
            i = stop;
        } else if field == 7 && wt == 2 {
            let (len, q) = match read_varint(data, p, end) {
                Some(t) => t,
                None => {
                    return None;
                },
            };
            if len > (end - q) as u64 {
                return None;
            }
            let stop = q + (len as usize);
            let info = match decode_info(data, q, stop) {
                Some(t) => t,
                None => {
                    return None;
                },
            };
            acc.new_partition_info = Some(info);
            i = stop;
        } else if field == 8 && wt == 2 {
            let (len, q) = match read_varint(data, p, end) {
                Some(t) => t,
                None => {
                    return None;
                },
            };
            if len > (end - q) as u64 {
                return None;
            }
            let stop = q + (len as usize);
            let op = match decode_operation(data, q, stop) {
                Some(t) => t,
                None => {
                    return None;
                },
            };
            let ghost before = acc@;
            acc.operations.push(op);
            proof {
                assert(acc@.operations =~= before.operations.push(op@));
            }
            i = stop;
        } else {
            let q = match skip_field(data, p, end, wt) {
                Some(t) => t,
                None => {
                    return None;
                },
            };
            i = q;
        }
    }
}

/// Decodes the manifest region. Fails with `Corrupt` exactly when the bytes
/// do not form a well-shaped message.
pub fn decode_manifest(data: &[u8]) -> (r: Result<Manifest, ExtractError>)
    ensures
        match r {
            Ok(m) => spec_manifest(data@) == Some(m@),
            Err(e) => spec_manifest(data@) is None && e == ExtractError::Corrupt,
        },
{
    let ghost s = data@;
    let end = data.len();
    let mut acc = Manifest { block_size: None, partitions: Vec::new() };
    proof {
        assert(acc@.partitions =~= manifest_init().partitions);
    }
    let mut i: usize = 0;
    loop
        invariant
            i <= end == data@.len(),
            data@ == s,
            spec_manifest_msg(s, 0, end as int, manifest_init()) == spec_manifest_msg(
                s,
                i as int,
                end as int,
                acc@,
            ),
        decreases end - i,
    {
        if i >= end {
            return Ok(acc);
        }
        let (tag, p) = match read_varint(data, i, end) {
            Some(t) => t,
            None => {
                return Err(ExtractError::Corrupt);
            },
        };
        let field = tag >> 3u64;
        let wt = tag & 7;
        if field == 3 && wt == 0 {
            let (v, q) = match read_varint(data, p, end) {
                Some(t) => t,
                None => {
                    return Err(ExtractError::Corrupt);
                },
            };
            if v > 0xffffffff {
                return Err(ExtractError::Corrupt);
            }
            acc.block_size = Some(v as u32);
            i = q;
        } else if field == 13 && wt == 2 {
            let (len, q) = match read_varint(data, p, end) {
                Some(t) => t,
                None => {
                    return Err(ExtractError::Corrupt);
                },
            };
            if len > (end - q) as u64 {
                return Err(ExtractError::Corrupt);
            }
            let stop = q + (len as usize);
            let part = match decode_partition(data, q, stop) {
                Some(t) => t,
                None => {
                    return Err(ExtractError::Corrupt);
                },
            };
            let ghost before = acc@;
            acc.partitions.push(part);
            proof {
                assert(acc@.partitions =~= before.partitions.push(part@));
            }
            i = stop;
        } else {
            let q = match skip_field(data, p, end, wt) {
                Some(t) => t,
                None => {
                    return Err(ExtractError::Corrupt);
                },
            };
            i = q;
        }
    }
}

} // verus!
