//! The self-appending format of a built executable.
//!
//! ```text
//! [ stub executable ][ payload ][ footer: sha256(payload) | payload_len u64 LE | "RUXPAY01" ]
//! ```
//!
//! Payload: `[php_len u64][php archive][app_len u64][app archive][meta_len u32][meta JSON]`.
//! Reading and writing files, the archives' contents and the JSON are the
//! caller's side; this module frames, splits and checks the bytes.
use vstd::prelude::*;
use crate::bytes::{
    le32_at, le32_bytes, le64_at, le64_bytes, lemma_concat_left, lemma_concat_right,
    lemma_le32_at_same, lemma_le32_roundtrip,
    lemma_le64_at_same, lemma_le64_roundtrip, push_bytes, push_le32, push_le64, read_le32,
    read_le64,
};
use crate::digest::{check_digest, hex_encode, hex_lower, sha256, sha256_of};
use crate::error::LauncherError;
use crate::text::push_str;

verus! {

/// `RUXPAY01`, the footer's magic.
pub open spec fn payload_magic() -> Seq<u8> {
    seq![0x52u8, 0x55u8, 0x58u8, 0x50u8, 0x41u8, 0x59u8, 0x30u8, 0x31u8]
}

fn magic_bytes() -> (r: [u8; 8])
    ensures
        r@ == payload_magic(),
{
    let r = [0x52u8, 0x55u8, 0x58u8, 0x50u8, 0x41u8, 0x59u8, 0x30u8, 0x31u8];
    assert(r@ =~= payload_magic());
    r
}

/// Per-app settings, chosen at build time and carried inside the payload:
/// the window's title and size, the router script the app's server needs
/// (if any), and the `--php-ini` entries passed to PHP at launch.
#[derive(Debug, Clone)]
pub struct BuildMeta {
    pub title: String,
    pub width: u32,
    pub height: u32,
    pub router: Option<String>,
    pub php_ini_overrides: Vec<String>,
}

impl Default for BuildMeta {
    fn default() -> (r: Self)
        ensures
            r.title@ == "Ruxius App"@,
            r.width == 1400,
            r.height == 900,
            r.router is None,
            r.php_ini_overrides@.len() == 0,
    {
        BuildMeta {
            title: "Ruxius App".to_owned(),
            width: 1400,
            height: 900,
            router: None,
            php_ini_overrides: Vec::new(),
        }
    }
}

/// Location and identity of a payload appended to an executable.
#[derive(Debug, Clone)]
pub struct PayloadInfo {
    pub offset: u64,
    pub len: u64,
    pub checksum: [u8; 32],
}

impl PayloadInfo {
    /// The checksum in lower-case hex.
    pub fn checksum_hex(&self) -> (s: String)
        ensures
            s@ == hex_lower(self.checksum@),
    {
        hex_encode(&self.checksum)
    }
}

/// The php/ and app/ archives plus metadata, split back out of a payload.
pub struct UnpackedPayload<'a> {
    pub php_archive: &'a [u8],
    pub app_archive: &'a [u8],
    pub meta: BuildMeta,
}

/// The three sections of a payload, the metadata still as JSON bytes.
pub struct PayloadSections<'a> {
    pub php_archive: &'a [u8],
    pub app_archive: &'a [u8],
    pub meta_json: &'a [u8],
}

/// What the last 48 bytes `f` of a file of `total` bytes say: the payload's
/// offset, length and checksum, or `None` when they are no valid footer
/// (wrong magic, an empty payload, or no room for a stub before it).
pub open spec fn footer_info(total: nat, f: Seq<u8>) -> Option<(nat, nat, Seq<u8>)> {
    let len = le64_at(f, 32);
    if f.subrange(40, 48) != payload_magic() {
        None
    } else if len == 0 || total <= 48 + len {
        None
    } else {
        Some(((total - 48 - len) as nat, len, f.subrange(0, 32)))
    }
}

/// Reads the footer `footer` (the last 48 bytes of a file of `total_len`
/// bytes). `None` for a bare executable with nothing appended, or a corrupt
/// or truncated footer.
pub fn parse_footer(total_len: u64, footer: &[u8]) -> (r: Option<PayloadInfo>)
    requires
        footer.len() == 48,
    ensures
        match footer_info(total_len as nat, footer@) {
            Some((off, len, sum)) => r matches Some(i) && i.offset == off && i.len == len
                && i.checksum@ == sum,
            None => r is None,
        },
{
    let magic = magic_bytes();
    let mut k: usize = 0;
    while k < 8
        invariant
            footer.len() == 48,
            magic@ == payload_magic(),
            k <= 8,
            forall|m: int| 0 <= m < k ==> footer@[40 + m] == magic@[m],
        decreases 8 - k,
    {
        if footer[40 + k] != magic[k] {
            assert(footer@.subrange(40, 48)[k as int] != payload_magic()[k as int]);
            return None;
        }
        k = k + 1;
    }
    assert(footer@.subrange(40, 48) =~= payload_magic());
    let payload_len = read_le64(footer, 32);
    if payload_len == 0 || total_len <= 48 || total_len - 48 <= payload_len {
        return None;
    }
    let mut checksum = [0u8; 32];
    for i in 0..32
        invariant
            footer.len() == 48,
            forall|m: int| 0 <= m < i ==> checksum@[m] == footer@[m],
    {
        checksum[i] = footer[i];
    }
    assert(checksum@ =~= footer@.subrange(0, 32));
    Some(PayloadInfo { offset: total_len - 48 - payload_len, len: payload_len, checksum })
}

/// The footer for a payload of `len` bytes with checksum `sum`.
pub open spec fn footer_bytes(sum: Seq<u8>, len: nat) -> Seq<u8> {
    sum + le64_bytes(len) + payload_magic()
}

/// Builds the footer written after a payload of `payload_len` bytes.
pub fn build_footer(checksum: &[u8; 32], payload_len: u64) -> (r: Vec<u8>)
    ensures
        r@ == footer_bytes(checksum@, payload_len as nat),
{
    let mut out: Vec<u8> = Vec::new();
    push_bytes(&mut out, checksum);
    push_le64(&mut out, payload_len);
    let magic = magic_bytes();
    push_bytes(&mut out, &magic);
    out
}

/// The footer written after `payload`: its SHA-256, its length and the
/// magic.
pub fn payload_footer(payload: &[u8]) -> (r: Vec<u8>)
    ensures
        r@ == footer_bytes(sha256_of(payload@), payload@.len()),
{
    let sum = sha256(payload);
    build_footer(&sum, payload.len() as u64)
}

/// How many bytes of an executable are its stub: everything before an
/// existing payload, or the whole file when none is appended.
pub fn stub_length(existing: &Option<PayloadInfo>, file_len: u64) -> (r: u64)
    ensures
        r == match existing {
            Some(i) => i.offset,
            None => file_len,
        },
{
    match existing {
        Some(i) => i.offset,
        None => file_len,
    }
}

/// The payload for the two archives and the metadata JSON.
#[verifier::opaque]
pub open spec fn payload_bytes(php: Seq<u8>, app: Seq<u8>, meta: Seq<u8>) -> Seq<u8> {
    le64_bytes(php.len()) + php + le64_bytes(app.len()) + app + le32_bytes(
        (meta.len() as u32) as nat,
    ) + meta
}

/// Frames the PHP archive, the app archive and the metadata JSON into one
/// payload.
pub fn assemble_payload(php_archive: &[u8], app_archive: &[u8], meta_json: &[u8]) -> (r: Vec<u8>)
    ensures
        r@ == payload_bytes(php_archive@, app_archive@, meta_json@),
{
    let mut out: Vec<u8> = Vec::new();
    push_le64(&mut out, php_archive.len() as u64);
    push_bytes(&mut out, php_archive);
    push_le64(&mut out, app_archive.len() as u64);
    push_bytes(&mut out, app_archive);
    push_le32(&mut out, meta_json.len() as u32);
    push_bytes(&mut out, meta_json);
    proof {
        reveal(payload_bytes);
    }
    out
}

/// The three sections of the payload `p`, or which part of it is cut short.
/// Bytes after the metadata are ignored.
pub open spec fn payload_sections(p: Seq<u8>) -> Result<(Seq<u8>, Seq<u8>, Seq<u8>), Seq<char>> {
    if p.len() < 8 {
        Err("payload truncated"@)
    } else if 8 + le64_at(p, 0) > p.len() {
        Err("payload truncated (php section)"@)
    } else {
        let c1: int = 8 + le64_at(p, 0) as int;
        if c1 + 8 > p.len() {
            Err("payload truncated"@)
        } else if c1 + 8 + le64_at(p, c1) > p.len() {
            Err("payload truncated (app section)"@)
        } else {
            let c3: int = c1 + 8 + le64_at(p, c1);
            if c3 + 4 > p.len() {
                Err("payload truncated (meta length)"@)
            } else if c3 + 4 + le32_at(p, c3) > p.len() {
                Err("payload truncated (meta section)"@)
            } else {
                Ok(
                    (
                        p.subrange(8, c1),
                        p.subrange(c1 + 8, c3),
                        p.subrange(c3 + 4, c3 + 4 + le32_at(p, c3)),
                    ),
                )
            }
        }
    }
}

fn truncated(why: &str) -> (e: LauncherError)
    ensures
        e matches LauncherError::Archive(m) && m@ == why@,
{
    let mut m = String::new();
    push_str(&mut m, why);
    LauncherError::Archive(m)
}

/// Splits a raw payload back into its php archive, app archive and
/// metadata JSON.
pub fn split_payload<'a>(payload: &'a [u8]) -> (r: Result<PayloadSections<'a>, LauncherError>)
    ensures
        match payload_sections(payload@) {
            Ok((php, app, meta)) => r matches Ok(s) && s.php_archive@ == php && s.app_archive@
                == app && s.meta_json@ == meta,
            Err(why) => r matches Err(LauncherError::Archive(m)) && m@ == why,
        },
{
    let n = payload.len();
    if n < 8 {
        return Err(truncated("payload truncated"));
    }
    let php_len = read_le64(payload, 0);
    if php_len > (n - 8) as u64 {
        return Err(truncated("payload truncated (php section)"));
    }
    let c1 = 8 + php_len as usize;
    assert(c1 == 8 + le64_at(payload@, 0));
    if n - c1 < 8 {
        return Err(truncated("payload truncated"));
    }
    let app_len = read_le64(payload, c1);
    if app_len > (n - c1 - 8) as u64 {
        return Err(truncated("payload truncated (app section)"));
    }
    let c3 = c1 + 8 + app_len as usize;
    assert(c3 == c1 + 8 + le64_at(payload@, c1 as int));
    if n - c3 < 4 {
        return Err(truncated("payload truncated (meta length)"));
    }
    let meta_len = read_le32(payload, c3);
    if meta_len as u64 > (n - c3 - 4) as u64 {
        return Err(truncated("payload truncated (meta section)"));
    }
    let c4 = c3 + 4;
    let end = c4 + meta_len as usize;
    Ok(
        PayloadSections {
            php_archive: &payload[8..c1],
            app_archive: &payload[c1 + 8..c3],
            meta_json: &payload[c4..end],
        },
    )
}

/// Checks the payload bytes `buf` read from an executable against the
/// footer's checksum.
pub fn verify_payload(buf: Vec<u8>, info: &PayloadInfo) -> (r: Result<Vec<u8>, LauncherError>)
    ensures
        sha256_of(buf@) == info.checksum@ ==> (r matches Ok(b) && b@ == buf@),
        sha256_of(buf@) != info.checksum@ ==> (r matches Err(
            LauncherError::ChecksumMismatch { expected, actual },
        ) && expected@ == hex_lower(info.checksum@) && actual@ == hex_lower(sha256_of(buf@))),
{
    check_digest(buf, &info.checksum)
}

/// Whether an already-built output, whose appended payload was `detected`,
/// holds exactly `payload` — in which case it need not be rewritten.
pub fn matches_existing_output(
    detected: &Result<Option<PayloadInfo>, LauncherError>,
    payload: &[u8],
) -> (b: bool)
    ensures
        b == (detected matches Ok(Some(i)) && i.checksum@ == sha256_of(payload@)),
{
    match detected {
        Ok(Some(info)) => {
            let sum = sha256(payload);
            let mut same = true;
            for i in 0..32
                invariant
                    same == forall|m: int| 0 <= m < i ==> sum@[m] == info.checksum@[m],
            {
                if sum[i] != info.checksum[i] {
                    same = false;
                }
            }
            assert(same ==> sum@ =~= info.checksum@);
            same
        },
        _ => false,
    }
}

/// The footer written after a payload is read back as that payload's
/// location, length and checksum: `parse_footer` on the last 48 bytes of
/// `stub ++ payload ++ footer` finds the payload right after the stub.
pub proof fn law_footer_roundtrip(stub_len: nat, sum: Seq<u8>, len: nat)
    requires
        stub_len > 0,
        len > 0,
        len < 18446744073709551616,
        sum.len() == 32,
    ensures
        footer_info(stub_len + len + 48, footer_bytes(sum, len)) == Some((stub_len, len, sum)),
{
    let f = footer_bytes(sum, len);
    lemma_le64_roundtrip(len);
    assert(f.subrange(32, 40) =~= le64_bytes(len).subrange(0, 8));
    lemma_le64_at_same(f, 32, le64_bytes(len), 0);
    assert(f.subrange(40, 48) =~= payload_magic());
    assert(f.subrange(0, 32) =~= sum);
}

proof fn lemma_payload_parts(php: Seq<u8>, app: Seq<u8>, meta: Seq<u8>)
    requires
        meta.len() < 4294967296,
    ensures
        payload_bytes(php, app, meta) == le64_bytes(php.len()) + php + le64_bytes(app.len()) + app
            + le32_bytes(meta.len()) + meta,
{
    reveal(payload_bytes);
    assert((meta.len() as u32) as nat == meta.len());
}

#[verifier::spinoff_prover]
#[verifier::rlimit(40)]
proof fn lemma_payload_php_len(php: Seq<u8>, app: Seq<u8>, meta: Seq<u8>)
    requires
        php.len() < 18446744073709551616,
        app.len() < 18446744073709551616,
        meta.len() < 4294967296,
    ensures
        ({
            let p = payload_bytes(php, app, meta);
            le64_at(p, 0) == php.len()
        }),
{
    let x1 = le64_bytes(php.len());
    let x2 = le64_bytes(app.len());
    let x3 = le32_bytes(meta.len());
    let q2 = x1 + php;
    let q3 = q2 + x2;
    let q4 = q3 + app;
    let q5 = q4 + x3;
    let p = q5 + meta;
    lemma_payload_parts(php, app, meta);
    let a = php.len() as int;
    let b = app.len() as int;
    let m = meta.len() as int;
    let c1 = 8 + a;
    let c3 = c1 + 8 + b;
    lemma_concat_left(q5, meta, 0, 8);
    lemma_concat_left(q4, x3, 0, 8);
    lemma_concat_left(q3, app, 0, 8);
    lemma_concat_left(q2, x2, 0, 8);
    lemma_concat_left(x1, php, 0, 8);
    assert(p.subrange(0, 8) == x1.subrange(0, 8));
    lemma_le64_at_same(p, 0, x1, 0);
    lemma_le64_roundtrip(php.len());
}

#[verifier::spinoff_prover]
#[verifier::rlimit(40)]
proof fn lemma_payload_php(php: Seq<u8>, app: Seq<u8>, meta: Seq<u8>)
    requires
        php.len() < 18446744073709551616,
        app.len() < 18446744073709551616,
        meta.len() < 4294967296,
    ensures
        ({
            let p = payload_bytes(php, app, meta);
            p.subrange(8, 8 + php.len() as int) == php
        }),
{
    let x1 = le64_bytes(php.len());
    let x2 = le64_bytes(app.len());
    let x3 = le32_bytes(meta.len());
    let q2 = x1 + php;
    let q3 = q2 + x2;
    let q4 = q3 + app;
    let q5 = q4 + x3;
    let p = q5 + meta;
    lemma_payload_parts(php, app, meta);
    let a = php.len() as int;
    let b = app.len() as int;
    let m = meta.len() as int;
    let c1 = 8 + a;
    let c3 = c1 + 8 + b;
    lemma_concat_left(q5, meta, 8, c1);
    lemma_concat_left(q4, x3, 8, c1);
    lemma_concat_left(q3, app, 8, c1);
    lemma_concat_left(q2, x2, 8, c1);
    lemma_concat_right(x1, php, 0, a);
    assert(php.subrange(0, a) =~= php);
}

#[verifier::spinoff_prover]
#[verifier::rlimit(40)]
proof fn lemma_payload_app_len(php: Seq<u8>, app: Seq<u8>, meta: Seq<u8>)
    requires
        php.len() < 18446744073709551616,
        app.len() < 18446744073709551616,
        meta.len() < 4294967296,
    ensures
        ({
            let p = payload_bytes(php, app, meta);
            le64_at(p, 8 + php.len() as int) == app.len()
        }),
{
    let x1 = le64_bytes(php.len());
    let x2 = le64_bytes(app.len());
    let x3 = le32_bytes(meta.len());
    let q2 = x1 + php;
    let q3 = q2 + x2;
    let q4 = q3 + app;
    let q5 = q4 + x3;
    let p = q5 + meta;
    lemma_payload_parts(php, app, meta);
    let a = php.len() as int;
    let b = app.len() as int;
    let m = meta.len() as int;
    let c1 = 8 + a;
    let c3 = c1 + 8 + b;
    lemma_le64_roundtrip(app.len());
    lemma_concat_left(q5, meta, c1, c1 + 8);
    lemma_concat_left(q4, x3, c1, c1 + 8);
    lemma_concat_left(q3, app, c1, c1 + 8);
    lemma_concat_right(q2, x2, 0, 8);
    assert(x2.subrange(0, 8) =~= x2);
    lemma_le64_at_same(p, c1, x2, 0);
}

#[verifier::spinoff_prover]
#[verifier::rlimit(40)]
proof fn lemma_payload_app(php: Seq<u8>, app: Seq<u8>, meta: Seq<u8>)
    requires
        php.len() < 18446744073709551616,
        app.len() < 18446744073709551616,
        meta.len() < 4294967296,
    ensures
        ({
            let p = payload_bytes(php, app, meta);
            p.subrange(16 + php.len() as int, 16 + php.len() as int + app.len() as int) == app
        }),
{
    let x1 = le64_bytes(php.len());
    let x2 = le64_bytes(app.len());
    let x3 = le32_bytes(meta.len());
    let q2 = x1 + php;
    let q3 = q2 + x2;
    let q4 = q3 + app;
    let q5 = q4 + x3;
    let p = q5 + meta;
    lemma_payload_parts(php, app, meta);
    let a = php.len() as int;
    let b = app.len() as int;
    let m = meta.len() as int;
    let c1 = 8 + a;
    let c3 = c1 + 8 + b;
    lemma_concat_left(q5, meta, c1 + 8, c3);
    lemma_concat_left(q4, x3, c1 + 8, c3);
    lemma_concat_right(q3, app, 0, b);
    assert(app.subrange(0, b) =~= app);
}

#[verifier::spinoff_prover]
#[verifier::rlimit(40)]
proof fn lemma_payload_meta_len(php: Seq<u8>, app: Seq<u8>, meta: Seq<u8>)
    requires
        php.len() < 18446744073709551616,
        app.len() < 18446744073709551616,
        meta.len() < 4294967296,
    ensures
        ({
            let p = payload_bytes(php, app, meta);
            le32_at(p, 16 + php.len() as int + app.len() as int) == meta.len()
        }),
{
    let x1 = le64_bytes(php.len());
    let x2 = le64_bytes(app.len());
    let x3 = le32_bytes(meta.len());
    let q2 = x1 + php;
    let q3 = q2 + x2;
    let q4 = q3 + app;
    let q5 = q4 + x3;
    let p = q5 + meta;
    lemma_payload_parts(php, app, meta);
    let a = php.len() as int;
    let b = app.len() as int;
    let m = meta.len() as int;
    let c1 = 8 + a;
    let c3 = c1 + 8 + b;
    lemma_le32_roundtrip(meta.len());
    lemma_concat_left(q5, meta, c3, c3 + 4);
    lemma_concat_right(q4, x3, 0, 4);
    assert(x3.subrange(0, 4) =~= x3);
    lemma_le32_at_same(p, c3, x3, 0);
}

#[verifier::spinoff_prover]
#[verifier::rlimit(40)]
proof fn lemma_payload_meta(php: Seq<u8>, app: Seq<u8>, meta: Seq<u8>)
    requires
        php.len() < 18446744073709551616,
        app.len() < 18446744073709551616,
        meta.len() < 4294967296,
    ensures
        ({
            let p = payload_bytes(php, app, meta);
            p.subrange(20 + php.len() as int + app.len() as int, 20 + php.len() as int + app.len() as int + meta.len() as int) == meta && p.len() == 20 + php.len() + app.len() + meta.len()
        }),
{
    let x1 = le64_bytes(php.len());
    let x2 = le64_bytes(app.len());
    let x3 = le32_bytes(meta.len());
    let q2 = x1 + php;
    let q3 = q2 + x2;
    let q4 = q3 + app;
    let q5 = q4 + x3;
    let p = q5 + meta;
    lemma_payload_parts(php, app, meta);
    let a = php.len() as int;
    let b = app.len() as int;
    let m = meta.len() as int;
    let c1 = 8 + a;
    let c3 = c1 + 8 + b;
    lemma_concat_right(q5, meta, 0, m);
    assert(meta.subrange(0, m) =~= meta);
}

/// A payload framed by `assemble_payload` splits back, by `split_payload`,
/// into the same PHP archive, app archive and metadata.
#[verifier::rlimit(40)]
pub proof fn law_payload_roundtrip(php: Seq<u8>, app: Seq<u8>, meta: Seq<u8>)
    requires
        php.len() < 18446744073709551616,
        app.len() < 18446744073709551616,
        meta.len() < 4294967296,
    ensures
        payload_sections(payload_bytes(php, app, meta)) == Ok::<
            (Seq<u8>, Seq<u8>, Seq<u8>),
            Seq<char>,
        >((php, app, meta)),
{
    lemma_payload_php_len(php, app, meta);
    lemma_payload_php(php, app, meta);
    lemma_payload_app_len(php, app, meta);
    lemma_payload_app(php, app, meta);
    lemma_payload_meta_len(php, app, meta);
    lemma_payload_meta(php, app, meta);
    let p = payload_bytes(php, app, meta);
    let c1: int = 8 + php.len() as int;
    let c3: int = c1 + 8 + app.len();
    assert(p.len() >= 8);
    assert(8 + le64_at(p, 0) <= p.len());
    assert(c1 + 8 <= p.len());
    assert(c1 + 8 + le64_at(p, c1) <= p.len());
    assert(c3 + 4 <= p.len());
    assert(c3 + 4 + le32_at(p, c3) <= p.len());
}

/// Bytes after a payload that splits do not change how it splits.
#[verifier::rlimit(40)]
proof fn lemma_sections_ignore_rest(p: Seq<u8>, rest: Seq<u8>)
    requires
        payload_sections(p) is Ok,
    ensures
        payload_sections(p + rest) == payload_sections(p),
{
    let q = p + rest;
    lemma_concat_left(p, rest, 0, 8);
    lemma_le64_at_same(q, 0, p, 0);
    let c1: int = 8 + le64_at(p, 0) as int;
    lemma_concat_left(p, rest, c1, c1 + 8);
    lemma_le64_at_same(q, c1, p, c1);
    let c3: int = c1 + 8 + le64_at(p, c1);
    lemma_concat_left(p, rest, c3, c3 + 4);
    lemma_le32_at_same(q, c3, p, c3);
    let end: int = c3 + 4 + le32_at(p, c3);
    lemma_concat_left(p, rest, 8, c1);
    lemma_concat_left(p, rest, c1 + 8, c3);
    lemma_concat_left(p, rest, c3 + 4, end);
}

/// Whatever follows a payload framed by `assemble_payload` (the footer, or
/// anything else), `split_payload` still finds the same PHP archive, app
/// archive and metadata in it.
pub proof fn law_payload_roundtrip_with_trailer(
    php: Seq<u8>,
    app: Seq<u8>,
    meta: Seq<u8>,
    rest: Seq<u8>,
)
    requires
        php.len() < 18446744073709551616,
        app.len() < 18446744073709551616,
        meta.len() < 4294967296,
    ensures
        payload_sections(payload_bytes(php, app, meta) + rest) == Ok::<
            (Seq<u8>, Seq<u8>, Seq<u8>),
            Seq<char>,
        >((php, app, meta)),
{
    law_payload_roundtrip(php, app, meta);
    lemma_sections_ignore_rest(payload_bytes(php, app, meta), rest);
}

/// An output written as `stub ++ p ++ payload_footer(p)` is recognised by
/// `parse_footer` (its payload right after the stub, with `p`'s length and
/// digest), and `matches_existing_output` on it then holds for a payload
/// `q` exactly when `q` has the digest of `p`, so in particular for `p`.
pub proof fn law_written_output_matches(stub_len: nat, p: Seq<u8>, q: Seq<u8>)
    requires
        stub_len > 0,
        p.len() > 0,
        p.len() < 18446744073709551616,
        sha256_of(p).len() == 32,
    ensures
        footer_info(stub_len + p.len() + 48, footer_bytes(sha256_of(p), p.len())) matches Some(
            (off, len, sum),
        ) && off == stub_len && len == p.len() && sum == sha256_of(p) && (sum == sha256_of(q)
            <==> sha256_of(q) == sha256_of(p)),
{
    law_footer_roundtrip(stub_len, sha256_of(p), p.len());
}

} // verus!
