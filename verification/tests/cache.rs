use ruxius::archive::{compress_zstd_mt, decompress_archive};
use ruxius::cache::{cache_file_name, fingerprint, fingerprint_bytes, sort_walk, WalkEntry};
use ruxius::error::LauncherError;
use sha2::Digest;

fn components(path: &str) -> Vec<String> {
    path.split('/').map(|c| c.to_string()).collect()
}

fn file(path: &str, stat: Option<(u64, u64)>) -> WalkEntry {
    WalkEntry { rel_path: path.as_bytes().to_vec(), components: components(path), is_dir: false, stat }
}

fn dir(path: &str) -> WalkEntry {
    WalkEntry { rel_path: path.as_bytes().to_vec(), components: components(path), is_dir: true, stat: None }
}

#[test]
fn fingerprint_of_nothing_is_the_empty_digest_prefix() {
    assert_eq!(fingerprint(&[]), "e3b0c44298fc1c149afbf4c8");
}

#[test]
fn fingerprint_hashes_paths_sizes_and_mtimes_of_files_only() {
    let entries = vec![dir("src"), file("src/a.php", Some((5, 77))), file("b.php", None)];
    let mut expected = Vec::new();
    expected.extend_from_slice(b"src/a.php");
    expected.extend_from_slice(&5u64.to_le_bytes());
    expected.extend_from_slice(&77u64.to_le_bytes());
    expected.extend_from_slice(b"b.php");
    assert_eq!(fingerprint_bytes(&entries), expected);
    let full = hex::encode(sha2::Sha256::digest(&expected));
    assert_eq!(fingerprint(&entries), full[..24].to_string());
}

#[test]
fn fingerprint_changes_with_a_file_size() {
    let a = vec![file("index.php", Some((10, 1)))];
    let b = vec![file("index.php", Some((11, 1)))];
    assert_eq!(fingerprint(&a), fingerprint(&a));
    assert_ne!(fingerprint(&a), fingerprint(&b));
    assert_eq!(fingerprint(&a).len(), 24);
}

#[test]
fn cache_file_is_kind_dash_fingerprint() {
    assert_eq!(cache_file_name("php", "0123abcd"), "php-0123abcd.tar.zst");
}

#[test]
fn compressed_archives_decompress_to_their_input() {
    let data: Vec<u8> = (0..10_000u32).map(|i| (i % 251) as u8).collect();
    for workers in [1u32, 2, 4] {
        let packed = compress_zstd_mt(&data, 3, workers).unwrap();
        assert_ne!(packed, data);
        assert_eq!(decompress_archive(&packed).unwrap(), data);
    }
    let empty = compress_zstd_mt(&[], 19, 1).unwrap();
    assert_eq!(decompress_archive(&empty).unwrap(), Vec::<u8>::new());
}

#[test]
fn garbage_is_no_zstd_archive() {
    match decompress_archive(b"definitely not zstd") {
        Err(LauncherError::Archive(m)) => assert!(m.starts_with("zstd decompression failed: ")),
        other => panic!("unexpected {other:?}"),
    }
}

#[test]
fn walks_sort_by_components_like_paths() {
    let walk = vec![
        file("a-b", None),
        file("a/z.php", None),
        dir("a"),
        file("B.txt", None),
        file("a/b/c", None),
        dir("a/b"),
    ];
    let sorted: Vec<String> = sort_walk(walk)
        .into_iter()
        .map(|e| String::from_utf8(e.rel_path).unwrap())
        .collect();
    let mut expected: Vec<std::path::PathBuf> =
        ["a-b", "a/z.php", "a", "B.txt", "a/b/c", "a/b"].iter().map(std::path::PathBuf::from).collect();
    expected.sort();
    let expected: Vec<String> = expected.iter().map(|p| p.to_string_lossy().into_owned()).collect();
    assert_eq!(sorted, expected);
    assert_eq!(sorted, vec!["B.txt", "a", "a/b", "a/b/c", "a/z.php", "a-b"]);
}
