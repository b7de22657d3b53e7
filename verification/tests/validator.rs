use otaripper::check_block_size;
use otaripper::errors::{ExtractError, ManifestFault};
use otaripper::extents::validate_partition_extents;
use otaripper::manifest::{Extent, InstallOperation};

fn op_with_extents(extents: &[(u64, u64)]) -> InstallOperation {
    InstallOperation {
        op_type: Some(6),
        data_offset: None,
        data_length: None,
        data_sha256_hash: None,
        dst_extents: extents
            .iter()
            .map(|&(s, n)| Extent {
                start_block: Some(s),
                num_blocks: Some(n),
            })
            .collect(),
    }
}

#[test]
fn accepts_adjacent_extents() {
    // [a, b) next to [b, c) share no block.
    let ops = vec![op_with_extents(&[(0, 2)]), op_with_extents(&[(2, 3)])];
    assert!(validate_partition_extents(&ops).is_ok());
}

#[test]
fn rejects_overlapping_extents() {
    // [a, b) against [b-1, c) share block b-1.
    let ops = vec![op_with_extents(&[(0, 2)]), op_with_extents(&[(1, 3)])];
    match validate_partition_extents(&ops) {
        Err(ExtractError::InvalidManifest(ManifestFault::Overlap(i, j))) => {
            assert_ne!(i, j);
        }
        other => panic!("expected an overlap, got {:?}", other),
    }
}

#[test]
fn accepts_empty_extents_everywhere() {
    // A zero-block extent claims nothing, even on top of another extent.
    let ops = vec![
        op_with_extents(&[(0, 2), (1, 0)]),
        op_with_extents(&[(0, 0), (2, 1)]),
    ];
    assert!(validate_partition_extents(&ops).is_ok());
}

#[test]
fn rejects_end_overflow() {
    let ops = vec![op_with_extents(&[(u64::MAX, 1)])];
    assert_eq!(
        validate_partition_extents(&ops).unwrap_err(),
        ExtractError::InvalidManifest(ManifestFault::Overflow)
    );
    let ops2 = vec![op_with_extents(&[(u64::MAX - 1, 2)])];
    assert_eq!(
        validate_partition_extents(&ops2).unwrap_err(),
        ExtractError::InvalidManifest(ManifestFault::Overflow)
    );
}

#[test]
fn rejects_missing_extent_fields() {
    let mut op = op_with_extents(&[(0, 1)]);
    op.dst_extents[0].num_blocks = None;
    assert_eq!(
        validate_partition_extents(&vec![op]).unwrap_err(),
        ExtractError::InvalidManifest(ManifestFault::MissingField)
    );
}

#[test]
fn duplicate_nonempty_extents_overlap() {
    let ops = vec![op_with_extents(&[(4, 2), (4, 2)])];
    assert!(matches!(
        validate_partition_extents(&ops),
        Err(ExtractError::InvalidManifest(ManifestFault::Overlap(_, _)))
    ));
}

#[test]
fn block_size_bounds() {
    assert!(check_block_size(512));
    assert!(check_block_size(4096));
    assert!(check_block_size(16777216));
    assert!(!check_block_size(511));
    assert!(!check_block_size(0));
    assert!(!check_block_size(4095));
    assert!(!check_block_size(4097));
    assert!(!check_block_size(16777217));
    assert!(!check_block_size(33554432));
    // In range but not a power of two.
    assert!(!check_block_size(1536));
}
