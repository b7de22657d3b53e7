use std::io::{Read, Write};

use otaripper::cmd::Cmd;
use otaripper::errors::{ExtractError, ManifestFault};
use otaripper::hashing::{sha256_hex, verify_sha256};
use otaripper::manifest::decode_manifest;
use otaripper::payload::Payload;

// --- protobuf wire encoding, as the update-engine schema lays fields out ---

fn varint(mut v: u64) -> Vec<u8> {
    let mut out = Vec::new();
    loop {
        let b = (v & 0x7f) as u8;
        v >>= 7;
        if v == 0 {
            out.push(b);
            return out;
        }
        out.push(b | 0x80);
    }
}

fn field_varint(field: u64, v: u64) -> Vec<u8> {
    let mut out = varint(field << 3);
    out.extend_from_slice(&varint(v));
    out
}

fn field_bytes(field: u64, payload: &[u8]) -> Vec<u8> {
    let mut out = varint((field << 3) | 2);
    out.extend_from_slice(&varint(payload.len() as u64));
    out.extend_from_slice(payload);
    out
}

fn extent_msg(start: u64, num: u64) -> Vec<u8> {
    let mut out = field_varint(1, start);
    out.extend_from_slice(&field_varint(2, num));
    out
}

struct OpSpec {
    op_type: u64,
    data: Option<(u64, u64)>,
    hash: Option<Vec<u8>>,
    extents: Vec<(u64, u64)>,
}

fn op_msg(spec: &OpSpec) -> Vec<u8> {
    let mut out = field_varint(1, spec.op_type);
    if let Some((off, len)) = spec.data {
        out.extend_from_slice(&field_varint(2, off));
        out.extend_from_slice(&field_varint(3, len));
    }
    for &(s, n) in &spec.extents {
        out.extend_from_slice(&field_bytes(6, &extent_msg(s, n)));
    }
    if let Some(ref h) = spec.hash {
        out.extend_from_slice(&field_bytes(8, h));
    }
    out
}

fn partition_msg(name: &[u8], size: Option<u64>, hash: Option<&[u8]>, ops: &[OpSpec]) -> Vec<u8> {
    let mut out = field_bytes(1, name);
    let mut info = Vec::new();
    if let Some(sz) = size {
        info.extend_from_slice(&field_varint(1, sz));
    }
    if let Some(h) = hash {
        info.extend_from_slice(&field_bytes(2, h));
    }
    out.extend_from_slice(&field_bytes(7, &info));
    for op in ops {
        out.extend_from_slice(&field_bytes(8, &op_msg(op)));
    }
    out
}

fn manifest_msg(block_size: u32, partitions: &[Vec<u8>]) -> Vec<u8> {
    let mut out = field_varint(3, block_size as u64);
    for p in partitions {
        out.extend_from_slice(&field_bytes(13, p));
    }
    out
}

fn raw_payload_v1(manifest: &[u8], data: &[u8]) -> Vec<u8> {
    let mut out = Vec::new();
    out.extend_from_slice(b"CrAU");
    out.extend_from_slice(&1u64.to_be_bytes());
    out.extend_from_slice(&(manifest.len() as u64).to_be_bytes());
    out.extend_from_slice(manifest);
    out.extend_from_slice(data);
    out
}

fn default_cmd() -> Cmd {
    Cmd {
        payload: None,
        list: false,
        threads: None,
        output_dir: None,
        partitions: Vec::new(),
        skip_verify: false,
        strict: false,
        print_hash: false,
        plausibility_checks: false,
        stats: false,
        no_open_folder: false,
        positional_payload: None,
    }
}

fn pattern_4096() -> Vec<u8> {
    // 0x00..0xFF repeated 16 times.
    (0..4096).map(|i| (i % 256) as u8).collect()
}

fn sha(data: &[u8]) -> Vec<u8> {
    <sha2::Sha256 as sha2::Digest>::digest(data).to_vec()
}

// --- end-to-end scenarios ---

#[test]
fn extracts_minimal_replace_payload() {
    let data = pattern_4096();
    let boot = partition_msg(
        b"boot",
        Some(4096),
        None,
        &[OpSpec { op_type: 0, data: Some((0, 4096)), hash: None, extents: vec![(0, 1)] }],
    );
    let payload = raw_payload_v1(&manifest_msg(4096, &[boot]), &data);
    let out = default_cmd().run_extract(&payload).unwrap();
    assert_eq!(out.len(), 1);
    assert_eq!(out[0].name, b"boot".to_vec());
    assert_eq!(out[0].order, 0);
    assert_eq!(out[0].image.len(), 4096);
    assert_eq!(out[0].image, data);
}

#[test]
fn strict_mode_requires_hashes() {
    let data = pattern_4096();
    let boot = partition_msg(
        b"boot",
        Some(4096),
        None,
        &[OpSpec { op_type: 0, data: Some((0, 4096)), hash: None, extents: vec![(0, 1)] }],
    );
    let payload = raw_payload_v1(&manifest_msg(4096, &[boot]), &data);
    let mut cmd = default_cmd();
    cmd.strict = true;
    assert_eq!(
        cmd.run_extract(&payload).unwrap_err(),
        ExtractError::MissingHash
    );
}

#[test]
fn zip_wrapped_payload_extracts_identically() {
    let data = pattern_4096();
    let boot = partition_msg(
        b"boot",
        Some(4096),
        None,
        &[OpSpec { op_type: 0, data: Some((0, 4096)), hash: None, extents: vec![(0, 1)] }],
    );
    let payload = raw_payload_v1(&manifest_msg(4096, &[boot]), &data);

    let mut zipped = zip::ZipWriter::new(std::io::Cursor::new(Vec::new()));
    zipped
        .start_file("payload.bin", zip::write::SimpleFileOptions::default())
        .unwrap();
    zipped.write_all(&payload).unwrap();
    let archive_bytes = zipped.finish().unwrap().into_inner();

    let mut archive =
        zip::ZipArchive::new(std::io::Cursor::new(archive_bytes)).unwrap();
    let mut inner = Vec::new();
    archive
        .by_name("payload.bin")
        .unwrap()
        .read_to_end(&mut inner)
        .unwrap();

    let out = default_cmd().run_extract(&inner).unwrap();
    assert_eq!(out.len(), 1);
    assert_eq!(out[0].image, data);
}

#[test]
fn zero_operations_give_zero_images_and_sanity_rejects_them() {
    let boot = partition_msg(
        b"boot",
        Some(4096),
        None,
        &[OpSpec { op_type: 6, data: None, hash: None, extents: vec![(0, 1)] }],
    );
    let system = partition_msg(
        b"system",
        Some(8192),
        None,
        &[OpSpec { op_type: 6, data: None, hash: None, extents: vec![(0, 2)] }],
    );
    let payload = raw_payload_v1(&manifest_msg(4096, &[boot, system]), &[]);

    let out = default_cmd().run_extract(&payload).unwrap();
    assert_eq!(out.len(), 2);
    assert_eq!(out[0].name, b"boot".to_vec());
    assert_eq!(out[0].image, vec![0u8; 4096]);
    assert_eq!(out[1].name, b"system".to_vec());
    assert_eq!(out[1].order, 1);
    assert_eq!(out[1].image, vec![0u8; 8192]);

    let mut cmd = default_cmd();
    cmd.plausibility_checks = true;
    assert_eq!(
        cmd.run_extract(&payload).unwrap_err(),
        ExtractError::SanityFailed
    );
}

#[test]
fn overlapping_extents_fail_validation() {
    let p = partition_msg(
        b"p",
        Some(16384),
        None,
        &[
            OpSpec { op_type: 6, data: None, hash: None, extents: vec![(0, 2)] },
            OpSpec { op_type: 6, data: None, hash: None, extents: vec![(1, 2)] },
        ],
    );
    let payload = raw_payload_v1(&manifest_msg(4096, &[p]), &[]);
    assert!(matches!(
        default_cmd().run_extract(&payload),
        Err(ExtractError::InvalidManifest(ManifestFault::Overlap(_, _)))
    ));
}

#[test]
fn incremental_operations_are_listed_and_refused() {
    let p = partition_msg(
        b"p",
        Some(4096),
        None,
        &[OpSpec { op_type: 5, data: Some((0, 16)), hash: None, extents: vec![(0, 1)] }],
    );
    let payload = raw_payload_v1(&manifest_msg(4096, &[p]), &[0u8; 16]);

    let parsed = Payload::parse(&payload).unwrap();
    let manifest = decode_manifest(parsed.manifest).unwrap();
    let listing = otaripper::cmd::list_partitions(&manifest);
    assert_eq!(listing.len(), 1);
    assert_eq!(listing[0].name, Some(b"p".to_vec()));
    assert_eq!(listing[0].size, Some(4096));
    assert!(!listing[0].is_full);

    assert_eq!(
        default_cmd().run_extract(&payload).unwrap_err(),
        ExtractError::UnsupportedIncremental(5)
    );
}

#[test]
fn full_partitions_are_labelled_full() {
    let p = partition_msg(
        b"boot",
        Some(4096),
        None,
        &[OpSpec { op_type: 0, data: Some((0, 4096)), hash: None, extents: vec![(0, 1)] }],
    );
    let payload = raw_payload_v1(&manifest_msg(4096, &[p]), &pattern_4096());
    let parsed = Payload::parse(&payload).unwrap();
    let manifest = decode_manifest(parsed.manifest).unwrap();
    let listing = otaripper::cmd::list_partitions(&manifest);
    assert!(listing[0].is_full);
}

// --- hashes ---

#[test]
fn operation_hash_is_checked_before_writing() {
    let data = pattern_4096();
    let good = partition_msg(
        b"boot",
        Some(4096),
        None,
        &[OpSpec {
            op_type: 0,
            data: Some((0, 4096)),
            hash: Some(sha(&data)),
            extents: vec![(0, 1)],
        }],
    );
    let payload = raw_payload_v1(&manifest_msg(4096, &[good]), &data);
    assert!(default_cmd().run_extract(&payload).is_ok());

    let mut wrong = sha(&data);
    wrong[0] ^= 0xFF;
    let bad = partition_msg(
        b"boot",
        Some(4096),
        None,
        &[OpSpec {
            op_type: 0,
            data: Some((0, 4096)),
            hash: Some(wrong),
            extents: vec![(0, 1)],
        }],
    );
    let payload_bad = raw_payload_v1(&manifest_msg(4096, &[bad]), &data);
    assert_eq!(
        default_cmd().run_extract(&payload_bad).unwrap_err(),
        ExtractError::HashMismatch
    );

    let mut skipping = default_cmd();
    skipping.skip_verify = true;
    assert!(skipping.run_extract(&payload_bad).is_ok());
}

#[test]
fn partition_hash_is_checked_and_reported() {
    let data = pattern_4096();
    let digest = sha(&data);
    let boot = partition_msg(
        b"boot",
        Some(4096),
        Some(&digest),
        &[OpSpec { op_type: 0, data: Some((0, 4096)), hash: None, extents: vec![(0, 1)] }],
    );
    let payload = raw_payload_v1(&manifest_msg(4096, &[boot]), &data);
    let mut cmd = default_cmd();
    cmd.print_hash = true;
    let out = cmd.run_extract(&payload).unwrap();
    assert_eq!(out[0].hash_hex, Some(hex::encode(&digest)));

    let mut wrong = digest.clone();
    wrong[31] ^= 1;
    let bad = partition_msg(
        b"boot",
        Some(4096),
        Some(&wrong),
        &[OpSpec { op_type: 0, data: Some((0, 4096)), hash: None, extents: vec![(0, 1)] }],
    );
    let payload_bad = raw_payload_v1(&manifest_msg(4096, &[bad]), &data);
    assert_eq!(
        default_cmd().run_extract(&payload_bad).unwrap_err(),
        ExtractError::HashMismatch
    );
}

#[test]
fn sha_helpers_match_known_vectors() {
    assert_eq!(
        sha256_hex(b"abc"),
        "ba7816bf8f01cfea414140de5dae2223b00361a396177a9cb410ff61f20015ad"
    );
    assert_eq!(
        sha256_hex(b""),
        "e3b0c44298fc1c149afbf4c8996fb92427ae41e4649b934ca495991b7852b855"
    );
    let digest =
        hex::decode("ba7816bf8f01cfea414140de5dae2223b00361a396177a9cb410ff61f20015ad").unwrap();
    assert!(verify_sha256(b"abc", &digest));
    assert!(!verify_sha256(b"abd", &digest));
}

// --- compressed operations ---

#[test]
fn bzip2_operation_decompresses_into_extents() {
    let data = pattern_4096();
    let mut enc = bzip2::write::BzEncoder::new(Vec::new(), bzip2::Compression::best());
    enc.write_all(&data).unwrap();
    let packed = enc.finish().unwrap();

    let boot = partition_msg(
        b"boot",
        Some(4096),
        None,
        &[OpSpec {
            op_type: 1,
            data: Some((0, packed.len() as u64)),
            hash: None,
            extents: vec![(0, 1)],
        }],
    );
    let payload = raw_payload_v1(&manifest_msg(4096, &[boot]), &packed);
    let out = default_cmd().run_extract(&payload).unwrap();
    assert_eq!(out[0].image, data);
}

#[test]
fn xz_operation_decompresses_into_extents() {
    let data = pattern_4096();
    let mut enc = xz2::write::XzEncoder::new(Vec::new(), 6);
    enc.write_all(&data).unwrap();
    let packed = enc.finish().unwrap();

    let boot = partition_msg(
        b"boot",
        Some(4096),
        None,
        &[OpSpec {
            op_type: 8,
            data: Some((0, packed.len() as u64)),
            hash: None,
            extents: vec![(0, 1)],
        }],
    );
    let payload = raw_payload_v1(&manifest_msg(4096, &[boot]), &packed);
    let out = default_cmd().run_extract(&payload).unwrap();
    assert_eq!(out[0].image, data);
}

#[test]
fn corrupt_compressed_input_is_refused() {
    let garbage = vec![0x5A; 64];
    let boot = partition_msg(
        b"boot",
        Some(4096),
        None,
        &[OpSpec {
            op_type: 1,
            data: Some((0, 64)),
            hash: None,
            extents: vec![(0, 1)],
        }],
    );
    let payload = raw_payload_v1(&manifest_msg(4096, &[boot]), &garbage);
    assert_eq!(
        default_cmd().run_extract(&payload).unwrap_err(),
        ExtractError::Corrupt
    );
}

// --- boundaries and selection ---

#[test]
fn empty_extents_write_nothing() {
    let data = pattern_4096();
    let boot = partition_msg(
        b"boot",
        Some(4096),
        None,
        &[OpSpec {
            op_type: 0,
            data: Some((0, 4096)),
            hash: None,
            extents: vec![(0, 1), (7, 0)],
        }],
    );
    let payload = raw_payload_v1(&manifest_msg(4096, &[boot]), &data);
    let out = default_cmd().run_extract(&payload).unwrap();
    assert_eq!(out[0].image, data);
}

#[test]
fn block_size_bounds_extract() {
    // The smallest legal block size works end to end.
    let data: Vec<u8> = (0..512).map(|i| (i % 251) as u8).collect();
    let boot = partition_msg(
        b"boot",
        Some(512),
        None,
        &[OpSpec { op_type: 0, data: Some((0, 512)), hash: None, extents: vec![(0, 1)] }],
    );
    let payload = raw_payload_v1(&manifest_msg(512, &[boot]), &data);
    let out = default_cmd().run_extract(&payload).unwrap();
    assert_eq!(out[0].image, data);

    // A block size that is not a power of two is refused.
    let boot2 = partition_msg(
        b"boot",
        Some(1536),
        None,
        &[OpSpec { op_type: 6, data: None, hash: None, extents: vec![(0, 1)] }],
    );
    let payload2 = raw_payload_v1(&manifest_msg(1536, &[boot2]), &[]);
    assert_eq!(
        default_cmd().run_extract(&payload2).unwrap_err(),
        ExtractError::Corrupt
    );
}

#[test]
fn selection_restricts_and_unknown_names_fail() {
    let data = pattern_4096();
    let boot = partition_msg(
        b"boot",
        Some(4096),
        None,
        &[OpSpec { op_type: 0, data: Some((0, 4096)), hash: None, extents: vec![(0, 1)] }],
    );
    let system = partition_msg(
        b"system",
        Some(4096),
        None,
        &[OpSpec { op_type: 6, data: None, hash: None, extents: vec![(0, 1)] }],
    );
    let payload = raw_payload_v1(&manifest_msg(4096, &[boot, system]), &data);

    let mut cmd = default_cmd();
    cmd.partitions = vec![b"system".to_vec()];
    let out = cmd.run_extract(&payload).unwrap();
    assert_eq!(out.len(), 1);
    assert_eq!(out[0].name, b"system".to_vec());
    assert_eq!(out[0].order, 0);

    let mut missing = default_cmd();
    missing.partitions = vec![b"vendor".to_vec()];
    assert_eq!(
        missing.run_extract(&payload).unwrap_err(),
        ExtractError::ConfigError
    );
}

#[test]
fn thread_count_and_flag_conflicts_are_config_errors() {
    let mut cmd = default_cmd();
    cmd.threads = Some(257);
    assert_eq!(cmd.validate_config().unwrap_err(), ExtractError::ConfigError);
    cmd.threads = Some(256);
    assert!(cmd.validate_config().is_ok());
    cmd.threads = Some(0);
    assert!(cmd.validate_config().is_ok());

    let mut conflict = default_cmd();
    conflict.strict = true;
    conflict.skip_verify = true;
    assert_eq!(
        conflict.validate_config().unwrap_err(),
        ExtractError::ConfigError
    );
}

#[test]
fn repeated_extraction_is_byte_identical() {
    let data = pattern_4096();
    let boot = partition_msg(
        b"boot",
        Some(4096),
        None,
        &[OpSpec { op_type: 0, data: Some((0, 4096)), hash: None, extents: vec![(0, 1)] }],
    );
    let payload = raw_payload_v1(&manifest_msg(4096, &[boot]), &data);
    let first = default_cmd().run_extract(&payload).unwrap();
    let second = default_cmd().run_extract(&payload).unwrap();
    assert_eq!(first.len(), second.len());
    assert_eq!(first[0].image, second[0].image);
}

#[test]
fn under_delivered_stream_is_a_size_mismatch() {
    // 4096 bytes of input cannot fill two 4096-byte blocks.
    let data = pattern_4096();
    let boot = partition_msg(
        b"boot",
        Some(8192),
        None,
        &[OpSpec { op_type: 0, data: Some((0, 4096)), hash: None, extents: vec![(0, 2)] }],
    );
    let payload = raw_payload_v1(&manifest_msg(4096, &[boot]), &data);
    assert_eq!(
        default_cmd().run_extract(&payload).unwrap_err(),
        ExtractError::InvalidManifest(ManifestFault::SizeMismatch)
    );
}

#[test]
fn padded_final_block_is_accepted() {
    // 4000 bytes pad up to one 4096-byte block; the tail stays zero.
    let data: Vec<u8> = (0..4000).map(|i| (i % 256) as u8).collect();
    let boot = partition_msg(
        b"boot",
        Some(4096),
        None,
        &[OpSpec { op_type: 0, data: Some((0, 4000)), hash: None, extents: vec![(0, 1)] }],
    );
    let payload = raw_payload_v1(&manifest_msg(4096, &[boot]), &data);
    let out = default_cmd().run_extract(&payload).unwrap();
    assert_eq!(out[0].image.len(), 4096);
    assert_eq!(&out[0].image[..4000], &data[..]);
    assert!(out[0].image[4000..].iter().all(|&b| b == 0));
}

#[test]
fn scattered_extents_fill_in_order() {
    // One stream across two extents in reverse block order: the stream's
    // first block lands at block 1, its second at block 0.
    let mut data = Vec::new();
    data.extend_from_slice(&vec![0xAAu8; 4096]);
    data.extend_from_slice(&vec![0xBBu8; 4096]);
    let p = partition_msg(
        b"p",
        Some(8192),
        None,
        &[OpSpec {
            op_type: 0,
            data: Some((0, 8192)),
            hash: None,
            extents: vec![(1, 1), (0, 1)],
        }],
    );
    let payload = raw_payload_v1(&manifest_msg(4096, &[p]), &data);
    let out = default_cmd().run_extract(&payload).unwrap();
    assert!(out[0].image[..4096].iter().all(|&b| b == 0xBB));
    assert!(out[0].image[4096..].iter().all(|&b| b == 0xAA));
}
