use ruxius::error::LauncherError;
use ruxius::pack::{build_pack, list_names, pack_file_name, pack_temp_name, parse_pack_header, verify_pack};
use sha2::Digest;

#[test]
fn pack_reads_back_its_archive() {
    let archive = b"compressed php install".to_vec();
    let pack = build_pack(&archive);
    assert_eq!(&pack[0..8], b"RUXPACK1");
    assert_eq!(pack.len(), 48 + archive.len());
    let (sum, len) = parse_pack_header("php74.pack", &pack[0..48]).unwrap();
    assert_eq!(len, archive.len() as u64);
    let expected: [u8; 32] = sha2::Sha256::digest(&archive).into();
    assert_eq!(sum, expected);
    assert_eq!(verify_pack(&sum, pack[48..].to_vec()).unwrap(), archive);
}

#[test]
fn bad_magic_and_tampering_are_errors() {
    let mut pack = build_pack(b"data");
    pack[0] = b'X';
    match parse_pack_header("p.pack", &pack[0..48]) {
        Err(LauncherError::Archive(m)) => {
            assert_eq!(m, "'p.pack' doesn't look like a Ruxius .pack file (bad magic)")
        }
        other => panic!("unexpected {other:?}"),
    }
    let pack = build_pack(b"data");
    let (sum, _) = parse_pack_header("p.pack", &pack[0..48]).unwrap();
    assert!(matches!(
        verify_pack(&sum, b"date".to_vec()),
        Err(LauncherError::ChecksumMismatch { .. })
    ));
}

#[test]
fn pack_names_are_sorted_stems_of_pack_files() {
    let files: Vec<String> =
        ["php83.pack", "notes.txt", "php74.pack", "archive.pack.tmp", ".pack"].iter().map(|s| s.to_string()).collect();
    assert_eq!(list_names(&files), vec!["php74".to_string(), "php83".to_string()]);
}

#[test]
fn pack_file_names() {
    assert_eq!(pack_file_name("php74"), "php74.pack");
    assert_eq!(pack_temp_name("php74"), ".php74.pack.tmp");
}

#[test]
fn packed_archive_reads_back_whole() {
    let archive = vec![0u8, 1, 2, 255, 7, 7, 7];
    let pack = build_pack(&archive);
    let (sum, len) = parse_pack_header("x.pack", &pack[0..48]).unwrap();
    let body = pack[48..48 + len as usize].to_vec();
    assert_eq!(pack.len(), 48 + len as usize);
    assert_eq!(verify_pack(&sum, body).ok().unwrap(), archive);
}
