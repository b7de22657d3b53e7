use otaripper::bulk::is_all_zero;
use otaripper::bulk::CpuSimd;

#[test]
fn test_simd_implementation() {
    // Test with all zeros
    let zeros = vec![0u8; 1000];
    assert!(is_all_zero(&zeros));

    // Test with non-zeros
    let mut non_zeros = vec![0u8; 1000];
    non_zeros[500] = 1;
    assert!(!is_all_zero(&non_zeros));

    // Test small slices
    let small_zeros = vec![0u8; 16];
    assert!(is_all_zero(&small_zeros));

    let mut small_non_zeros = vec![0u8; 16];
    small_non_zeros[8] = 1;
    assert!(!is_all_zero(&small_non_zeros));

    // Test edge cases
    let empty: Vec<u8> = vec![];
    assert!(is_all_zero(&empty));

    let single_zero = vec![0u8];
    assert!(is_all_zero(&single_zero));

    let single_non_zero = vec![1u8];
    assert!(!is_all_zero(&single_non_zero));
}

#[test]
fn cpu_simd_selection_prefers_widest() {
    assert_eq!(CpuSimd::select(true, true, true, true), CpuSimd::Avx512);
    assert_eq!(CpuSimd::select(true, false, true, true), CpuSimd::Avx2);
    assert_eq!(CpuSimd::select(false, true, true, true), CpuSimd::Avx2);
    assert_eq!(CpuSimd::select(false, false, false, true), CpuSimd::Sse2);
    assert_eq!(CpuSimd::select(false, false, false, false), CpuSimd::Scalar);
    assert_eq!(CpuSimd::Avx512.lane_width(), 64);
    assert_eq!(CpuSimd::Sse2.lane_width(), 16);
}
