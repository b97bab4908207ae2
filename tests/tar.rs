use ssp::parser::{
    accounts_payloads, classify_header, is_accounts_entry, parse_octal, ArchiveError, TarEntry,
    TAR_BLOCK,
};

fn tar_header(name: &str, size: usize, type_flag: u8) -> [u8; TAR_BLOCK] {
    let mut h = [0u8; TAR_BLOCK];
    h[..name.len()].copy_from_slice(name.as_bytes());
    let size_field = format!("{:011o}\0", size);
    h[124..136].copy_from_slice(size_field.as_bytes());
    h[156] = type_flag;
    h
}

fn tar_entry(name: &str, data: &[u8]) -> Vec<u8> {
    let mut out = tar_header(name, data.len(), b'0').to_vec();
    out.extend_from_slice(data);
    let padded = data.len().div_ceil(TAR_BLOCK) * TAR_BLOCK;
    out.resize(TAR_BLOCK + padded, 0);
    out
}

fn inflate(compressed: &[u8]) -> Vec<u8> {
    zstd::decode_all(compressed).unwrap()
}

#[test]
fn parse_octal_text() {
    assert_eq!(parse_octal(b"00000000144\0"), 100);
    assert_eq!(parse_octal(b"00000001750 "), 1000);
    assert_eq!(parse_octal(b"\0\0\0\0\0\0\0\0\0\0\0\0"), 0);
    assert_eq!(parse_octal(b""), 0);
}

#[test]
fn parse_octal_binary_extension() {
    assert_eq!(parse_octal(&[0x80, 0, 0, 0, 0, 0, 0, 0, 0, 0x01, 0x00, 0x00]), 0x10000);
    assert_eq!(parse_octal(&[0xff, 0, 0, 0, 0, 0, 0, 0, 0, 0, 0x02, 0x01]), 0x201);
}

#[test]
fn parse_octal_stops_at_terminator() {
    assert_eq!(parse_octal(b"17 77"), 15);
    assert_eq!(parse_octal(b"7\x007"), 7);
}

#[test]
fn accounts_entry_needs_regular_file_and_marker() {
    assert!(is_accounts_entry(&tar_header("snapshot/accounts/123.4", 0, b'0')));
    assert!(is_accounts_entry(&tar_header("accounts/5.6", 0, 0)));
    assert!(is_accounts_entry(&tar_header("x/my_accounts/7", 0, b'0')));
    assert!(!is_accounts_entry(&tar_header("accounts/5.6", 0, b'5')));
    assert!(!is_accounts_entry(&tar_header("other/foo", 0, b'0')));
    assert!(!is_accounts_entry(&tar_header("accounts", 0, b'0')));
}

#[test]
fn accounts_marker_at_end_of_name_field() {
    let mut h = [0u8; TAR_BLOCK];
    h[91..100].copy_from_slice(b"accounts/");
    h[156] = b'0';
    assert!(is_accounts_entry(&h));
    let mut late = [0u8; TAR_BLOCK];
    late[92..101].copy_from_slice(b"accounts/");
    late[156] = b'0';
    assert!(!is_accounts_entry(&late));
}

#[test]
fn classify_zero_block_ends_archive() {
    assert_eq!(classify_header(&[0u8; TAR_BLOCK]), Ok(TarEntry::End));
}

#[test]
fn classify_rounds_size_up_to_blocks() {
    assert_eq!(
        classify_header(&tar_header("accounts/1.0", 100, b'0')),
        Ok(TarEntry::Accounts { size: 100, padded: 512 })
    );
    assert_eq!(
        classify_header(&tar_header("other/foo", 1024, b'0')),
        Ok(TarEntry::Skip { padded: 1024 })
    );
    assert_eq!(
        classify_header(&tar_header("accounts/1.0", 0, b'0')),
        Ok(TarEntry::Accounts { size: 0, padded: 0 })
    );
}

#[test]
fn classify_rejects_size_that_cannot_be_padded() {
    let mut h = tar_header("accounts/1.0", 0, b'0');
    h[124..136].copy_from_slice(&[0x80, 0, 0, 0, 0xff, 0xff, 0xff, 0xff, 0xff, 0xff, 0xff, 0xff]);
    assert_eq!(classify_header(&h), Err(ArchiveError::ImpossibleSize { size: u64::MAX }));
}

#[test]
fn empty_archive_yields_nothing() {
    let tar = vec![0u8; 2 * TAR_BLOCK];
    let compressed = zstd::encode_all(&tar[..], 3).unwrap();
    let payloads = accounts_payloads(&inflate(&compressed)).unwrap();
    assert!(payloads.is_empty());
}

#[test]
fn non_accounts_entry_is_skipped() {
    let mut tar = tar_entry("other/foo", &[0xff; 1024]);
    tar.extend_from_slice(&[0u8; 2 * TAR_BLOCK]);
    let compressed = zstd::encode_all(&tar[..], 3).unwrap();
    let payloads = accounts_payloads(&inflate(&compressed)).unwrap();
    assert!(payloads.is_empty());
}

#[test]
fn accounts_entries_are_returned_in_order() {
    let mut tar = tar_entry("snapshot/accounts/1.0", &[1, 2, 3]);
    tar.extend(tar_entry("other/foo", &[9; 600]));
    tar.extend(tar_entry("snapshot/accounts/2.0", &[4; 513]));
    tar.extend_from_slice(&[0u8; 2 * TAR_BLOCK]);
    let payloads = accounts_payloads(&tar).unwrap();
    assert_eq!(payloads, vec![vec![1, 2, 3], vec![4; 513]]);
}

#[test]
fn short_tail_ends_archive_cleanly() {
    let mut tar = tar_entry("accounts/1.0", &[7; 10]);
    tar.extend_from_slice(&[1u8; 100]);
    assert_eq!(accounts_payloads(&tar).unwrap(), vec![vec![7; 10]]);
    assert_eq!(accounts_payloads(&[]).unwrap(), Vec::<Vec<u8>>::new());
}

#[test]
fn truncated_entry_is_an_error() {
    let mut tar = tar_entry("accounts/1.0", &[7; 10]);
    tar.truncate(TAR_BLOCK + 5);
    assert_eq!(accounts_payloads(&tar), Err(ArchiveError::TruncatedEntry));
    let mut skip = tar_entry("other/foo", &[7; 1000]);
    skip.truncate(TAR_BLOCK + 600);
    assert_eq!(accounts_payloads(&skip), Err(ArchiveError::TruncatedEntry));
}
