use ruxius::error::LauncherError;
use ruxius::payload::{
    assemble_payload, build_footer, matches_existing_output, parse_footer, payload_footer, split_payload,
    stub_length, verify_payload, BuildMeta, PayloadInfo,
};
use sha2::Digest;

fn sha(data: &[u8]) -> [u8; 32] {
    sha2::Sha256::digest(data).into()
}

#[test]
fn footer_is_checksum_length_and_magic() {
    let sum = [7u8; 32];
    let f = build_footer(&sum, 0x0102);
    assert_eq!(f.len(), 48);
    assert_eq!(&f[0..32], &sum);
    assert_eq!(&f[32..40], &0x0102u64.to_le_bytes());
    assert_eq!(&f[40..48], b"RUXPAY01");
}

#[test]
fn footer_reads_back_after_a_stub() {
    let sum = [9u8; 32];
    let f = build_footer(&sum, 100);
    let info = parse_footer(1000 + 100 + 48, &f).expect("a footer");
    assert_eq!(info.offset, 1000);
    assert_eq!(info.len, 100);
    assert_eq!(info.checksum, sum);
}

#[test]
fn footer_rejects_bad_magic_empty_payload_and_no_stub() {
    let sum = [1u8; 32];
    let mut f = build_footer(&sum, 10);
    f[47] = b'2';
    assert!(parse_footer(1000, &f).is_none());
    let empty = build_footer(&sum, 0);
    assert!(parse_footer(1000, &empty).is_none());
    let f = build_footer(&sum, 10);
    assert!(parse_footer(58, &f).is_none());
    assert!(parse_footer(59, &f).is_some());
}

#[test]
fn payload_splits_back_into_its_sections() {
    let p = assemble_payload(b"php!", b"the app", b"{\"title\":\"x\"}");
    assert_eq!(p.len(), 8 + 4 + 8 + 7 + 4 + 13);
    let s = split_payload(&p).unwrap();
    assert_eq!(s.php_archive, b"php!");
    assert_eq!(s.app_archive, b"the app");
    assert_eq!(s.meta_json, b"{\"title\":\"x\"}");
}

fn split_error(p: &[u8]) -> String {
    match split_payload(p) {
        Err(LauncherError::Archive(m)) => m,
        Err(e) => panic!("unexpected error {e:?}"),
        Ok(_) => panic!("expected an error"),
    }
}

#[test]
fn truncated_payloads_say_where() {
    let p = assemble_payload(b"php!", b"the app", b"meta");
    assert_eq!(split_error(&p[..5]), "payload truncated");
    assert_eq!(split_error(&p[..10]), "payload truncated (php section)");
    assert_eq!(split_error(&p[..15]), "payload truncated");
    assert_eq!(split_error(&p[..22]), "payload truncated (app section)");
    assert_eq!(split_error(&p[..28]), "payload truncated (meta length)");
    assert_eq!(split_error(&p[..32]), "payload truncated (meta section)");
}

#[test]
fn stub_length_is_the_offset_or_the_whole_file() {
    let info = PayloadInfo { offset: 42, len: 7, checksum: [0; 32] };
    assert_eq!(stub_length(&Some(info), 1000), 42);
    assert_eq!(stub_length(&None, 1000), 1000);
}

#[test]
fn payload_is_checked_against_its_footer() {
    let data = b"payload bytes".to_vec();
    let good = PayloadInfo { offset: 0, len: data.len() as u64, checksum: sha(&data) };
    assert_eq!(verify_payload(data.clone(), &good).unwrap(), data);
    let bad = PayloadInfo { offset: 0, len: data.len() as u64, checksum: [0; 32] };
    match verify_payload(data.clone(), &bad) {
        Err(LauncherError::ChecksumMismatch { expected, actual }) => {
            assert_eq!(expected, "0".repeat(64));
            assert_eq!(actual, hex::encode(sha(&data)));
        }
        other => panic!("unexpected {other:?}"),
    }
}

#[test]
fn existing_output_matches_only_the_same_payload() {
    let payload = b"abc";
    let info = PayloadInfo { offset: 10, len: 3, checksum: sha(payload) };
    assert!(matches_existing_output(&Ok(Some(info.clone())), payload));
    assert!(!matches_existing_output(&Ok(Some(info)), b"abd"));
    assert!(!matches_existing_output(&Ok(None), payload));
    assert!(!matches_existing_output(&Err(LauncherError::NoDataDir), payload));
}

#[test]
fn checksum_hex_is_lower_case_hex() {
    let info = PayloadInfo { offset: 0, len: 0, checksum: sha(b"") };
    assert_eq!(
        info.checksum_hex(),
        "e3b0c44298fc1c149afbf4c8996fb92427ae41e4649b934ca495991b7852b855"
    );
}

#[test]
fn build_meta_defaults() {
    let m = BuildMeta::default();
    assert_eq!(m.title, "Ruxius App");
    assert_eq!(m.width, 1400);
    assert_eq!(m.height, 900);
    assert_eq!(m.router, None);
    assert!(m.php_ini_overrides.is_empty());
}

#[test]
fn payload_footer_is_the_footer_of_its_digest() {
    let payload = b"the payload";
    let f = payload_footer(payload);
    assert_eq!(f, build_footer(&sha(payload), payload.len() as u64));
    let info = parse_footer(500 + payload.len() as u64 + 48, &f).unwrap();
    assert_eq!((info.offset, info.len), (500, payload.len() as u64));
    assert!(matches_existing_output(&Ok(Some(info)), payload));
}

#[test]
fn payload_splits_the_same_with_bytes_after_it() {
    let mut p = assemble_payload(b"PHP", b"APPZ", b"{\"t\":1}");
    p.extend_from_slice(b"trailing footer bytes");
    let s = split_payload(&p).ok().unwrap();
    assert_eq!(s.php_archive, b"PHP");
    assert_eq!(s.app_archive, b"APPZ");
    assert_eq!(s.meta_json, b"{\"t\":1}");
}

#[test]
fn written_output_matches_its_own_payload_only() {
    let p = assemble_payload(b"php", b"app", b"{}");
    let mut out = b"MZ-stub".to_vec();
    out.extend_from_slice(&p);
    out.extend_from_slice(&payload_footer(&p));
    let footer = &out[out.len() - 48..];
    let detected = Ok(parse_footer(out.len() as u64, footer));
    match &detected {
        Ok(Some(i)) => {
            assert_eq!(i.offset, 7);
            assert_eq!(i.len, p.len() as u64);
        }
        _ => panic!("no footer found"),
    }
    assert!(matches_existing_output(&detected, &p));
    let other = assemble_payload(b"php", b"app2", b"{}");
    assert!(!matches_existing_output(&detected, &other));
}
