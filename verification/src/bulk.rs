use vstd::prelude::*;

verus! {

/// The widest SIMD lane the running machine offers for bulk copy and compare.
/// Detection itself queries the CPU and so lives outside the library; the
/// choice among detected features is made here.
#[derive(Clone, Copy, PartialEq, Eq, Structural, Debug)]
pub enum CpuSimd {
    /// No usable vector extension; byte-at-a-time fallback.
    Scalar,
    /// 16-byte lanes.
    Sse2,
    /// 32-byte lanes.
    Avx2,
    /// 64-byte lanes.
    Avx512,
}

impl CpuSimd {
    /// Picks the widest lane the detected features allow: AVX-512 needs both
    /// the F and BW subsets, otherwise AVX2, otherwise SSE2, otherwise scalar.
    pub fn select(avx512f: bool, avx512bw: bool, avx2: bool, sse2: bool) -> (r: CpuSimd)
        ensures
            r == (if avx512f && avx512bw {
                CpuSimd::Avx512
            } else if avx2 {
                CpuSimd::Avx2
            } else if sse2 {
                CpuSimd::Sse2
            } else {
                CpuSimd::Scalar
            }),
    {
        if avx512f && avx512bw {
            CpuSimd::Avx512
        } else if avx2 {
            CpuSimd::Avx2
        } else if sse2 {
            CpuSimd::Sse2
        } else {
            CpuSimd::Scalar
        }
    }

    /// The lane width in bytes that this level loads and stores at once.
    pub fn lane_width(self) -> (r: usize)
        ensures
            r == (match self {
                CpuSimd::Scalar => 1usize,
                CpuSimd::Sse2 => 16usize,
                CpuSimd::Avx2 => 32usize,
                CpuSimd::Avx512 => 64usize,
            }),
    {
        match self {
            CpuSimd::Scalar => 1,
            CpuSimd::Sse2 => 16,
            CpuSimd::Avx2 => 32,
            CpuSimd::Avx512 => 64,
        }
    }
}

/// Holds exactly when every byte of `data` is zero.
pub open spec fn all_zero(data: Seq<u8>) -> bool {
    forall|k: int| 0 <= k < data.len() ==> data[k] == 0
}

/// Reports whether every byte of `data` is zero, returning at the first
/// non-zero byte.
pub fn is_all_zero(data: &[u8]) -> (r: bool)
    ensures
        r == all_zero(data@),
{
    let n = data.len();
    let mut i: usize = 0;
    while i < n
        invariant
            i <= n,
            n == data@.len(),
            forall|k: int| 0 <= k < i ==> data@[k] == 0,
        decreases n - i,
    {
        if data[i] != 0 {
            proof {
                assert(data@[i as int] != 0);
            }
            return false;
        }
        i = i + 1;
    }
    true
}

/// `s` with `d` written over its bytes starting at `at`; bytes outside that
/// window keep their value.
pub open spec fn overwrite(s: Seq<u8>, at: int, d: Seq<u8>) -> Seq<u8> {
    Seq::new(s.len(), |i: int| if at <= i < at + d.len() { d[i - at] } else { s[i] })
}

/// Copies all of `src` into `sink` at offset `at`.
pub fn copy_into(sink: &mut Vec<u8>, at: usize, src: &[u8])
    requires
        at + src@.len() <= old(sink)@.len(),
    ensures
        final(sink)@ == overwrite(old(sink)@, at as int, src@),
{
    let n = src.len();
    let sink_len = sink.len();
    let mut j: usize = 0;
    while j < n
        invariant
            j <= n,
            n == src@.len(),
            at + n <= sink_len,
            sink_len == sink@.len(),
            sink@ == overwrite(old(sink)@, at as int, src@.take(j as int)),
        decreases n - j,
    {
        sink.set(at + j, src[j]);
        proof {
            assert(sink@ =~= overwrite(
                old(sink)@,
                at as int,
                src@.take(j as int + 1),
            ));
        }
        j = j + 1;
    }
    proof {
        assert(src@.take(n as int) =~= src@);
    }
}

} // verus!
