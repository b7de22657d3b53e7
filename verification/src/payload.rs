use vstd::prelude::*;
use vstd::slice::slice_subrange;
use crate::errors::ParseError;

verus! {

/// Cap on the declared manifest size: 256 MiB.
pub const MAX_MANIFEST_SIZE: u64 = 268435456;

/// Cap on the declared metadata-signature size: 64 MiB.
pub const MAX_SIGNATURE_SIZE: u32 = 67108864;

/// The leading four bytes every payload container carries: `CrAU`.
pub open spec fn has_magic(s: Seq<u8>) -> bool {
    s.len() >= 4 && s[0] == 0x43u8 && s[1] == 0x72u8 && s[2] == 0x41u8 && s[3] == 0x55u8
}

/// The big-endian value of the eight bytes of `s` starting at `i`.
pub open spec fn be64_at(s: Seq<u8>, i: int) -> u64 {
    ((s[i] as u64) << 56) | ((s[i + 1] as u64) << 48) | ((s[i + 2] as u64) << 40) | ((s[i
        + 3] as u64) << 32) | ((s[i + 4] as u64) << 24) | ((s[i + 5] as u64) << 16) | ((s[i
        + 6] as u64) << 8) | (s[i + 7] as u64)
}

/// The big-endian value of the four bytes of `s` starting at `i`.
pub open spec fn be32_at(s: Seq<u8>, i: int) -> u32 {
    ((s[i] as u32) << 24) | ((s[i + 1] as u32) << 16) | ((s[i + 2] as u32) << 8) | (s[i
        + 3] as u32)
}

/// Length of the fixed header: 20 bytes for version 1, 24 for version 2,
/// which adds the metadata-signature size.
pub open spec fn spec_header_len(s: Seq<u8>) -> int {
    if be64_at(s, 4) == 2 {
        24
    } else {
        20
    }
}

/// The declared metadata-signature size; version 1 has none.
pub open spec fn spec_sig_size(s: Seq<u8>) -> int {
    if be64_at(s, 4) == 2 {
        be32_at(s, 20) as int
    } else {
        0
    }
}

/// Offset of the data region: header, then manifest, then signature.
pub open spec fn spec_data_start(s: Seq<u8>) -> int {
    spec_header_len(s) + be64_at(s, 12) + spec_sig_size(s)
}

/// How the header parser judges a byte buffer: `None` means accepted, `Some`
/// carries the first failing check in the order the checks run.
pub open spec fn parse_outcome(s: Seq<u8>) -> Option<ParseError> {
    if s.len() < 20 {
        Some(ParseError::TooShort)
    } else if !has_magic(s) {
        Some(ParseError::BadMagic)
    } else if be64_at(s, 4) < 1 || be64_at(s, 4) > 2 {
        Some(ParseError::UnsupportedVersion)
    } else if be64_at(s, 12) > MAX_MANIFEST_SIZE {
        Some(ParseError::SizeOutOfRange)
    } else if be64_at(s, 4) == 2 && s.len() < 24 {
        Some(ParseError::TooShort)
    } else if be64_at(s, 4) == 2 && be32_at(s, 20) > MAX_SIGNATURE_SIZE {
        Some(ParseError::SizeOutOfRange)
    } else if spec_data_start(s) > s.len() {
        Some(ParseError::Truncated)
    } else {
        None
    }
}

/// A parsed view over a payload container. Every slice aliases the input
/// buffer; parsing copies nothing.
#[derive(Debug)]
pub struct Payload<'a> {
    /// Major version of the container format: 1 or 2.
    pub file_format_version: u64,
    /// Size in bytes of the manifest region.
    pub manifest_size: u64,
    /// Declared size of the metadata signature; present exactly when the
    /// version is 2.
    pub metadata_signature_size: Option<u32>,
    /// The serialized manifest.
    pub manifest: &'a [u8],
    /// The metadata signature; present exactly when the version is 2 and the
    /// declared signature size is non-zero.
    pub metadata_signature: Option<&'a [u8]>,
    /// The data region each operation's `data_offset` points into.
    pub data: &'a [u8],
}

/// The field-by-field relation between an accepted buffer and its parsed view.
pub open spec fn payload_matches(p: Payload, s: Seq<u8>) -> bool {
    let hl = spec_header_len(s);
    let ms = be64_at(s, 12) as int;
    &&& p.file_format_version == be64_at(s, 4)
    &&& p.manifest_size == be64_at(s, 12)
    &&& p.metadata_signature_size == (if be64_at(s, 4) == 2 {
        Some(be32_at(s, 20))
    } else {
        None::<u32>
    })
    &&& p.manifest@ == s.subrange(hl, hl + ms)
    &&& (if be64_at(s, 4) == 2 && be32_at(s, 20) > 0 {
        p.metadata_signature is Some && p.metadata_signature.unwrap()@ == s.subrange(
            hl + ms,
            hl + ms + spec_sig_size(s),
        )
    } else {
        p.metadata_signature is None
    })
    &&& p.data@ == s.subrange(spec_data_start(s), s.len() as int)
}

/// Reads the big-endian 64-bit value at `at`.
fn read_be64(data: &[u8], at: usize) -> (r: u64)
    requires
        at + 8 <= data@.len(),
    ensures
        r == be64_at(data@, at as int),
{
    ((data[at] as u64) << 56u64) | ((data[at + 1] as u64) << 48u64) | ((data[at
        + 2] as u64) << 40u64) | ((data[at + 3] as u64) << 32u64) | ((data[at
        + 4] as u64) << 24u64) | ((data[at + 5] as u64) << 16u64) | ((data[at
        + 6] as u64) << 8u64) | (data[at + 7] as u64)
}

/// Reads the big-endian 32-bit value at `at`.
fn read_be32(data: &[u8], at: usize) -> (r: u32)
    requires
        at + 4 <= data@.len(),
    ensures
        r == be32_at(data@, at as int),
{
    ((data[at] as u32) << 24u32) | ((data[at + 1] as u32) << 16u32) | ((data[at
        + 2] as u32) << 8u32) | (data[at + 3] as u32)
}

impl<'a> Payload<'a> {
    /// Parses a payload container: checks the magic, the version, the size
    /// caps, and that the declared regions fit the buffer, then carves the
    /// buffer into manifest, optional signature, and data.
    pub fn parse(bytes: &'a [u8]) -> (r: Result<Payload<'a>, ParseError>)
        ensures
            match r {
                Ok(p) => parse_outcome(bytes@) is None && payload_matches(p, bytes@),
                Err(e) => parse_outcome(bytes@) == Some(e),
            },
    {
        let total = bytes.len();
        if total < 20 {
            return Err(ParseError::TooShort);
        }
        if !(bytes[0] == 0x43 && bytes[1] == 0x72 && bytes[2] == 0x41 && bytes[3] == 0x55) {
            return Err(ParseError::BadMagic);
        }
        let version = read_be64(bytes, 4);
        if version < 1 || version > 2 {
            return Err(ParseError::UnsupportedVersion);
        }
        let manifest_size = read_be64(bytes, 12);
        if manifest_size > MAX_MANIFEST_SIZE {
            return Err(ParseError::SizeOutOfRange);
        }
        let sig_size: u32 = if version == 2 {
            if total < 24 {
                return Err(ParseError::TooShort);
            }
            let ss = read_be32(bytes, 20);
            if ss > MAX_SIGNATURE_SIZE {
                return Err(ParseError::SizeOutOfRange);
            }
            ss
        } else {
            0
        };
        let header_len: usize = if version == 2 {
            24
        } else {
            20
        };
        // The caps bound every term, so the sums stay far below 2^64.
        let manifest_end: u64 = (header_len as u64) + manifest_size;
        let data_start: u64 = manifest_end + (sig_size as u64);
        if data_start > (total as u64) {
            return Err(ParseError::Truncated);
        }
        let manifest = slice_subrange(bytes, header_len, (manifest_end as usize));
        let metadata_signature: Option<&[u8]> = if version == 2 && sig_size > 0 {
            Some(slice_subrange(bytes, manifest_end as usize, data_start as usize))
        } else {
            None
        };
        let data = slice_subrange(bytes, data_start as usize, total);
        Ok(
            Payload {
                file_format_version: version,
                manifest_size,
                metadata_signature_size: if version == 2 {
                    Some(sig_size)
                } else {
                    None
                },
                manifest,
                metadata_signature,
                data,
            },
        )
    }
}


/// The big-endian byte rendering of a 64-bit value, most significant first.
pub open spec fn be64_bytes(v: u64) -> Seq<u8> {
    seq![
        ((v >> 56) & 0xff) as u8,
        ((v >> 48) & 0xff) as u8,
        ((v >> 40) & 0xff) as u8,
        ((v >> 32) & 0xff) as u8,
        ((v >> 24) & 0xff) as u8,
        ((v >> 16) & 0xff) as u8,
        ((v >> 8) & 0xff) as u8,
        (v & 0xff) as u8,
    ]
}

/// The big-endian byte rendering of a 32-bit value, most significant first.
pub open spec fn be32_bytes(v: u32) -> Seq<u8> {
    seq![((v >> 24) & 0xff) as u8, ((v >> 16) & 0xff) as u8, ((v >> 8) & 0xff) as u8, (v
        & 0xff) as u8]
}

/// The header a parsed view denotes: magic, version, manifest size, and, when
/// the signature size is present, that size.
pub open spec fn spec_header_bytes(version: u64, manifest_size: u64, sig: Option<u32>) -> Seq<u8> {
    seq![0x43u8, 0x72u8, 0x41u8, 0x55u8] + be64_bytes(version) + be64_bytes(manifest_size) + (
    match sig {
        Some(ss) => be32_bytes(ss),
        None => Seq::empty(),
    })
}

proof fn lemma_be64_unpack(b0: u8, b1: u8, b2: u8, b3: u8, b4: u8, b5: u8, b6: u8, b7: u8)
    ensures
        be64_bytes(
            ((b0 as u64) << 56) | ((b1 as u64) << 48) | ((b2 as u64) << 40) | ((b3 as u64) << 32)
                | ((b4 as u64) << 24) | ((b5 as u64) << 16) | ((b6 as u64) << 8) | (b7 as u64),
        ) =~= seq![b0, b1, b2, b3, b4, b5, b6, b7],
{
    let v: u64 = ((b0 as u64) << 56) | ((b1 as u64) << 48) | ((b2 as u64) << 40) | ((b3
        as u64) << 32) | ((b4 as u64) << 24) | ((b5 as u64) << 16) | ((b6 as u64) << 8) | (b7
        as u64);
    assert(((v >> 56) & 0xff) as u8 == b0 && ((v >> 48) & 0xff) as u8 == b1 && ((v >> 40)
        & 0xff) as u8 == b2 && ((v >> 32) & 0xff) as u8 == b3 && ((v >> 24) & 0xff) as u8 == b4 && (
    (v >> 16) & 0xff) as u8 == b5 && ((v >> 8) & 0xff) as u8 == b6 && (v & 0xff) as u8 == b7)
        by (bit_vector)
        requires
            v == ((b0 as u64) << 56) | ((b1 as u64) << 48) | ((b2 as u64) << 40) | ((b3
                as u64) << 32) | ((b4 as u64) << 24) | ((b5 as u64) << 16) | ((b6 as u64) << 8) | (
            b7 as u64),
    ;
}

proof fn lemma_be32_unpack(b0: u8, b1: u8, b2: u8, b3: u8)
    ensures
        be32_bytes(
            ((b0 as u32) << 24) | ((b1 as u32) << 16) | ((b2 as u32) << 8) | (b3 as u32),
        ) =~= seq![b0, b1, b2, b3],
{
    let v: u32 = ((b0 as u32) << 24) | ((b1 as u32) << 16) | ((b2 as u32) << 8) | (b3 as u32);
    assert(((v >> 24) & 0xff) as u8 == b0 && ((v >> 16) & 0xff) as u8 == b1 && ((v >> 8)
        & 0xff) as u8 == b2 && (v & 0xff) as u8 == b3) by (bit_vector)
        requires
            v == ((b0 as u32) << 24) | ((b1 as u32) << 16) | ((b2 as u32) << 8) | (b3 as u32),
    ;
}

/// An accepted buffer starts with exactly the header its parsed fields denote:
/// re-emitting the fields reproduces the header bitwise.
pub proof fn lemma_header_roundtrip(s: Seq<u8>)
    requires
        parse_outcome(s) is None,
    ensures
        spec_header_bytes(
            be64_at(s, 4),
            be64_at(s, 12),
            if be64_at(s, 4) == 2 {
                Some(be32_at(s, 20))
            } else {
                None
            },
        ) == s.take(spec_header_len(s)),
{
    lemma_be64_unpack(s[4], s[5], s[6], s[7], s[8], s[9], s[10], s[11]);
    lemma_be64_unpack(s[12], s[13], s[14], s[15], s[16], s[17], s[18], s[19]);
    if be64_at(s, 4) == 2 {
        lemma_be32_unpack(s[20], s[21], s[22], s[23]);
        assert(spec_header_bytes(
            be64_at(s, 4),
            be64_at(s, 12),
            Some(be32_at(s, 20)),
        ) =~= s.take(24));
    } else {
        assert(spec_header_bytes(be64_at(s, 4), be64_at(s, 12), None::<u32>) =~= s.take(20));
    }
}

impl<'a> Payload<'a> {
    /// Re-emits the fixed header this view was parsed from.
    pub fn header_bytes(&self) -> (r: Vec<u8>)
        ensures
            r@ == spec_header_bytes(
                self.file_format_version,
                self.manifest_size,
                self.metadata_signature_size,
            ),
    {
        let mut out: Vec<u8> = Vec::new();
        out.push(0x43);
        out.push(0x72);
        out.push(0x41);
        out.push(0x55);
        push_be64(&mut out, self.file_format_version);
        push_be64(&mut out, self.manifest_size);
        match self.metadata_signature_size {
            Some(ss) => {
                push_be32(&mut out, ss);
                proof {
                    assert(out@ =~= spec_header_bytes(
                        self.file_format_version,
                        self.manifest_size,
                        self.metadata_signature_size,
                    ));
                }
            },
            None => {
                proof {
                    assert(out@ =~= spec_header_bytes(
                        self.file_format_version,
                        self.manifest_size,
                        self.metadata_signature_size,
                    ));
                }
            },
        }
        out
    }
}

/// Appends the big-endian bytes of a 64-bit value.
fn push_be64(out: &mut Vec<u8>, v: u64)
    ensures
        final(out)@ == old(out)@ + be64_bytes(v),
{
    out.push((((v >> 56u64) & 0xff) as u8));
    out.push((((v >> 48u64) & 0xff) as u8));
    out.push((((v >> 40u64) & 0xff) as u8));
    out.push((((v >> 32u64) & 0xff) as u8));
    out.push((((v >> 24u64) & 0xff) as u8));
    out.push((((v >> 16u64) & 0xff) as u8));
    out.push((((v >> 8u64) & 0xff) as u8));
    out.push(((v & 0xff) as u8));
    proof {
        assert(out@ =~= old(out)@ + be64_bytes(v));
    }
}

/// Appends the big-endian bytes of a 32-bit value.
fn push_be32(out: &mut Vec<u8>, v: u32)
    ensures
        final(out)@ == old(out)@ + be32_bytes(v),
{
    out.push((((v >> 24u32) & 0xff) as u8));
    out.push((((v >> 16u32) & 0xff) as u8));
    out.push((((v >> 8u32) & 0xff) as u8));
    out.push(((v & 0xff) as u8));
    proof {
        assert(out@ =~= old(out)@ + be32_bytes(v));
    }
}

} // verus!

