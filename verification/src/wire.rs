use vstd::prelude::*;

verus! {

// The manifest region is a protocol-buffer message: a sequence of fields,
// each a key varint (field number shifted left by three, wire type in the
// low bits) followed by a payload whose shape the wire type fixes. The
// decoders in this crate walk that grammar directly; the spec functions
// below are the grammar's mathematical form, shared by every message.

/// One step of varint decoding, `k` bytes already consumed into `acc`.
/// Yields the value and the position after it, or `None` when the region
/// ends inside the varint or the value needs more than 64 bits.
pub open spec fn spec_varint_rec(s: Seq<u8>, i: int, end: int, k: nat, acc: u64) -> Option<
    (u64, int),
>
    decreases 10 - k,
{
    if k >= 10 || i >= end || i < 0 || end > s.len() {
        None
    } else {
        let b = s[i];
        if k == 9 {
            if b >= 2 {
                None
            } else {
                Some(((acc | ((b as u64) << 63)) as u64, i + 1))
            }
        } else {
            let acc2 = (acc | (((b & 0x7f) as u64) << (7 * k))) as u64;
            if b >= 0x80 {
                spec_varint_rec(s, i + 1, end, k + 1, acc2)
            } else {
                Some((acc2, i + 1))
            }
        }
    }
}

/// The varint starting at `i` within `[i, end)` of `s`.
pub open spec fn spec_varint(s: Seq<u8>, i: int, end: int) -> Option<(u64, int)> {
    spec_varint_rec(s, i, end, 0, 0)
}

/// A decoded varint ends after the byte it started on and within the region.
pub proof fn lemma_varint_advances(s: Seq<u8>, i: int, end: int, k: nat, acc: u64)
    ensures
        match spec_varint_rec(s, i, end, k, acc) {
            Some((v, p)) => i < p <= end,
            None => true,
        },
    decreases 10 - k,
{
    if k < 10 && 0 <= i < end && end <= s.len() {
        let b = s[i];
        if k != 9 && b >= 0x80 {
            lemma_varint_advances(s, i + 1, end, k + 1, (acc | (((b & 0x7f) as u64) << (7 * k))) as u64);
        }
    }
}

/// Where the field payload for wire type `wt` starting at `i` ends: varints
/// are walked, fixed-width payloads measured, length-delimited payloads
/// skipped by their length. `None` when the region is malformed or the wire
/// type is unknown.
pub open spec fn spec_skip(s: Seq<u8>, i: int, end: int, wt: u64) -> Option<int> {
    if wt == 0 {
        match spec_varint(s, i, end) {
            Some((_v, p)) => Some(p),
            None => None,
        }
    } else if wt == 1 {
        if i + 8 <= end {
            Some(i + 8)
        } else {
            None
        }
    } else if wt == 2 {
        match spec_varint(s, i, end) {
            Some((len, p)) => if p + len <= end {
                Some(p + len)
            } else {
                None
            },
            None => None,
        }
    } else if wt == 5 {
        if i + 4 <= end {
            Some(i + 4)
        } else {
            None
        }
    } else {
        None
    }
}

/// A skipped field payload never ends before it starts.
pub proof fn lemma_skip_advances(s: Seq<u8>, i: int, end: int, wt: u64)
    ensures
        match spec_skip(s, i, end, wt) {
            Some(p) => i < p <= end,
            None => true,
        },
{
    if wt == 0 || wt == 2 {
        lemma_varint_advances(s, i, end, 0, 0);
    }
}

/// Reads the varint at `pos` within `[pos, end)`.
pub fn read_varint(data: &[u8], pos: usize, end: usize) -> (r: Option<(u64, usize)>)
    requires
        pos <= end <= data@.len(),
    ensures
        match r {
            Some((v, p)) => spec_varint(data@, pos as int, end as int) == Some((v, p as int)) && pos
                < p <= end,
            None => spec_varint(data@, pos as int, end as int) is None,
        },
{
    let ghost s = data@;
    let mut i: usize = pos;
    let mut k: u64 = 0;
    let mut acc: u64 = 0;
    loop
        invariant
            pos <= i <= end <= data@.len(),
            data@ == s,
            k <= 9,
            i == pos + k,
            spec_varint(s, pos as int, end as int) == spec_varint_rec(
                s,
                i as int,
                end as int,
                k as nat,
                acc,
            ),
        decreases 10 - k,
    {
        if i >= end {
            return None;
        }
        let b = data[i];
        if k == 9 {
            if b >= 2 {
                return None;
            }
            let v = acc | ((b as u64) << 63u64);
            return Some((v, i + 1));
        }
        let shift: u64 = 7 * k;
        let acc2 = acc | (((b & 0x7f) as u64) << shift);
        if b >= 0x80 {
            i = i + 1;
            k = k + 1;
            acc = acc2;
        } else {
            return Some((acc2, i + 1));
        }
    }
}

/// Skips the field payload of wire type `wt` starting at `pos`.
pub fn skip_field(data: &[u8], pos: usize, end: usize, wt: u64) -> (r: Option<usize>)
    requires
        pos <= end <= data@.len(),
    ensures
        match r {
            Some(p) => spec_skip(data@, pos as int, end as int, wt) == Some(p as int) && pos < p
                <= end,
            None => spec_skip(data@, pos as int, end as int, wt) is None,
        },
{
    if wt == 0 {
        match read_varint(data, pos, end) {
            Some((_v, p)) => Some(p),
            None => None,
        }
    } else if wt == 1 {
        if end - pos >= 8 {
            Some(pos + 8)
        } else {
            None
        }
    } else if wt == 2 {
        match read_varint(data, pos, end) {
            Some((len, p)) => {
                if len <= (end - p) as u64 {
                    Some(p + (len as usize))
                } else {
                    None
                }
            },
            None => None,
        }
    } else if wt == 5 {
        if end - pos >= 4 {
            Some(pos + 4)
        } else {
            None
        }
    } else {
        None
    }
}

} // verus!
