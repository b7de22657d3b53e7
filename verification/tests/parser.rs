use otaripper::errors::ParseError;
use otaripper::payload::Payload;

fn be64(v: u64) -> [u8; 8] {
    v.to_be_bytes()
}

fn be32(v: u32) -> [u8; 4] {
    v.to_be_bytes()
}

fn raw_v1(manifest: &[u8], data: &[u8]) -> Vec<u8> {
    let mut out = Vec::new();
    out.extend_from_slice(b"CrAU");
    out.extend_from_slice(&be64(1));
    out.extend_from_slice(&be64(manifest.len() as u64));
    out.extend_from_slice(manifest);
    out.extend_from_slice(data);
    out
}

fn raw_v2(manifest: &[u8], sig: &[u8], data: &[u8]) -> Vec<u8> {
    let mut out = Vec::new();
    out.extend_from_slice(b"CrAU");
    out.extend_from_slice(&be64(2));
    out.extend_from_slice(&be64(manifest.len() as u64));
    out.extend_from_slice(&be32(sig.len() as u32));
    out.extend_from_slice(manifest);
    out.extend_from_slice(sig);
    out.extend_from_slice(data);
    out
}

#[test]
fn parses_version_one_container() {
    let bytes = raw_v1(&[0xAA, 0xBB, 0xCC], &[1, 2, 3, 4]);
    let p = Payload::parse(&bytes).unwrap();
    assert_eq!(p.file_format_version, 1);
    assert_eq!(p.manifest_size, 3);
    assert_eq!(p.metadata_signature_size, None);
    assert_eq!(p.manifest, &[0xAA, 0xBB, 0xCC]);
    assert!(p.metadata_signature.is_none());
    assert_eq!(p.data, &[1, 2, 3, 4]);
}

#[test]
fn parses_version_two_container_with_signature() {
    let bytes = raw_v2(&[0x01, 0x02], &[9, 9, 9], &[7]);
    let p = Payload::parse(&bytes).unwrap();
    assert_eq!(p.file_format_version, 2);
    assert_eq!(p.manifest_size, 2);
    assert_eq!(p.metadata_signature_size, Some(3));
    assert_eq!(p.manifest, &[0x01, 0x02]);
    assert_eq!(p.metadata_signature.unwrap(), &[9, 9, 9]);
    assert_eq!(p.data, &[7]);
}

#[test]
fn rejects_short_buffer() {
    let bytes = b"CrAU\x00\x00\x00\x00";
    assert_eq!(Payload::parse(bytes).unwrap_err(), ParseError::TooShort);
}

#[test]
fn rejects_bad_magic() {
    let mut bytes = raw_v1(&[1], &[]);
    bytes[0] = b'P';
    assert_eq!(Payload::parse(&bytes).unwrap_err(), ParseError::BadMagic);
}

#[test]
fn rejects_unsupported_version() {
    let mut out = Vec::new();
    out.extend_from_slice(b"CrAU");
    out.extend_from_slice(&be64(3));
    out.extend_from_slice(&be64(0));
    out.extend_from_slice(&[0u8; 8]);
    assert_eq!(
        Payload::parse(&out).unwrap_err(),
        ParseError::UnsupportedVersion
    );
    let mut out0 = Vec::new();
    out0.extend_from_slice(b"CrAU");
    out0.extend_from_slice(&be64(0));
    out0.extend_from_slice(&be64(0));
    out0.extend_from_slice(&[0u8; 8]);
    assert_eq!(
        Payload::parse(&out0).unwrap_err(),
        ParseError::UnsupportedVersion
    );
}

#[test]
fn rejects_oversized_manifest_declaration() {
    let mut out = Vec::new();
    out.extend_from_slice(b"CrAU");
    out.extend_from_slice(&be64(1));
    out.extend_from_slice(&be64(268435457));
    assert_eq!(
        Payload::parse(&out).unwrap_err(),
        ParseError::SizeOutOfRange
    );
}

#[test]
fn rejects_truncated_regions() {
    let mut bytes = raw_v1(&[0xAA, 0xBB, 0xCC], &[]);
    bytes.truncate(bytes.len() - 2);
    assert_eq!(Payload::parse(&bytes).unwrap_err(), ParseError::Truncated);
}

#[test]
fn header_reemits_bitwise() {
    let v1 = raw_v1(&[0xAA, 0xBB], &[5, 6]);
    let p1 = Payload::parse(&v1).unwrap();
    assert_eq!(p1.header_bytes(), v1[..20].to_vec());

    let v2 = raw_v2(&[0x42; 5], &[1, 2], &[3]);
    let p2 = Payload::parse(&v2).unwrap();
    assert_eq!(p2.header_bytes(), v2[..24].to_vec());
}
