//! zstd compression of the php/ and app/ tar archives carried in a payload.
//!
//! The tar side (walking directories, writing files) is the caller's; this
//! module turns tar bytes into compressed bytes and back, through the
//! `zstd` crate.
use vstd::prelude::*;
use std::io::Write;
use crate::error::LauncherError;
use crate::text::{has_prefix, push_str};

verus! {

/// A `zstd::stream::write::Encoder` writing into a `Vec<u8>`, held opaque
/// and reached only through the calls below: its writer parameter is bound
/// by `io::Write`, so the encoder type is not declared on its own.
#[verifier::external_body]
pub struct ZstdStream {
    enc: zstd::stream::write::Encoder<'static, Vec<u8>>,
}

/// What `zstd::stream::decode_all` gives back for the compressed bytes
/// `data`: `Some` of the decompressed bytes, `None` when it fails.
pub uninterp spec fn zstd_decoded(data: Seq<u8>) -> Option<Seq<u8>>;

/// The bytes written so far into a zstd encoder, not yet compressed out.
pub uninterp spec fn zstd_pending(enc: ZstdStream) -> Seq<u8>;

/// `zstd::stream::write::Encoder::new` over an empty `Vec`. Claimed: a new
/// encoder holds no input yet.
#[verifier::external_body]
fn zstd_encoder(level: i32) -> (r: Result<ZstdStream, std::io::Error>)
    ensures
        r matches Ok(e) ==> zstd_pending(e) == Seq::<u8>::empty(),
{
    match zstd::stream::write::Encoder::new(Vec::new(), level) {
        Ok(enc) => Ok(ZstdStream { enc }),
        Err(e) => Err(e),
    }
}

/// `Encoder::multithread`: asks zstd to compress on `workers` threads.
/// Claimed: the input held so far is unchanged.
#[verifier::external_body]
fn zstd_multithread(enc: &mut ZstdStream, workers: u32) -> (r: Result<(), std::io::Error>)
    ensures
        zstd_pending(*final(enc)) == zstd_pending(*old(enc)),
{
    enc.enc.multithread(workers)
}

/// `Write::write_all` on the encoder. Claimed: when it succeeds, `data`
/// follows the input written before.
#[verifier::external_body]
fn zstd_write_all(enc: &mut ZstdStream, data: &[u8]) -> (r: Result<(), std::io::Error>)
    ensures
        r is Ok ==> zstd_pending(*final(enc)) == zstd_pending(*old(enc)) + data@,
{
    enc.enc.write_all(data)
}

/// `Encoder::finish`. Claimed: the compressed bytes it hands back decode,
/// with `decode_all`, to exactly the input written into the encoder (zstd
/// is lossless). The bytes themselves are not named: with several worker
/// threads zstd may frame its output differently.
#[verifier::external_body]
fn zstd_finish(enc: ZstdStream) -> (r: Result<Vec<u8>, std::io::Error>)
    ensures
        r matches Ok(out) ==> zstd_decoded(out@) == Some(zstd_pending(enc)),
{
    enc.enc.finish()
}

/// `zstd::stream::decode_all` on an in-memory slice. Claimed: it succeeds
/// exactly when `zstd_decoded(data)` is `Some`, with those bytes.
#[verifier::external_body]
fn zstd_decode_all(data: &[u8]) -> (r: Result<Vec<u8>, std::io::Error>)
    ensures
        match zstd_decoded(data@) {
            Some(d) => r matches Ok(v) && v@ == d,
            None => r is Err,
        },
{
    zstd::stream::decode_all(std::io::Cursor::new(data))
}

/// The `Display` text of an I/O error, for the messages below. Nothing is
/// claimed of the text.
#[verifier::external_body]
pub(crate) fn io_error_text(e: &std::io::Error) -> (s: String) {
    format!("{e}")
}

/// `LauncherError::Archive` whose message is `prefix` followed by the
/// text of `e`.
fn archive_error(prefix: &str, e: &std::io::Error) -> (r: LauncherError)
    ensures
        r matches LauncherError::Archive(m) && has_prefix(m@, prefix@),
{
    let mut m = String::new();
    push_str(&mut m, prefix);
    let t = io_error_text(e);
    push_str(&mut m, t.as_str());
    assert(m@.take(prefix@.len() as int) =~= prefix@);
    assert(has_prefix(m@, prefix@));
    LauncherError::Archive(m)
}

/// Compresses `data` with zstd at `level`, on `workers` threads when there
/// is more than one. The result, when `Ok`, decompresses to `data` again.
/// Errors come as `LauncherError::Archive` with a message naming the step
/// that failed (encoder set-up or compression) and then zstd's reason.
pub fn compress_zstd_mt(data: &[u8], level: i32, workers: u32) -> (r: Result<Vec<u8>, LauncherError>)
    ensures
        r matches Ok(out) ==> zstd_decoded(out@) == Some(data@),
        r matches Err(e) ==> (e matches LauncherError::Archive(m) && (has_prefix(
            m@,
            "zstd encoder init failed: "@,
        ) || has_prefix(m@, "zstd compression failed: "@))),
{
    let mut encoder = match zstd_encoder(level) {
        Ok(e) => e,
        Err(e) => {
            return Err(archive_error("zstd encoder init failed: ", &e));
        },
    };
    if workers > 1 {
        // Multithreading is an optimisation only: zstd builds without it
        // just keep compressing on one thread.
        let _ = zstd_multithread(&mut encoder, workers);
    }
    match zstd_write_all(&mut encoder, data) {
        Ok(()) => {},
        Err(e) => {
            return Err(archive_error("zstd compression failed: ", &e));
        },
    }
    assert(zstd_pending(encoder) =~= data@);
    match zstd_finish(encoder) {
        Ok(out) => Ok(out),
        Err(e) => Err(archive_error("zstd compression failed: ", &e)),
    }
}

/// Decompresses one of a payload's archives back into tar bytes;
/// `LauncherError::Archive` ("zstd decompression failed: ...") when the
/// bytes are no valid zstd stream.
pub fn decompress_archive(archive: &[u8]) -> (r: Result<Vec<u8>, LauncherError>)
    ensures
        match zstd_decoded(archive@) {
            Some(d) => r matches Ok(v) && v@ == d,
            None => r matches Err(LauncherError::Archive(m)) && has_prefix(
                m@,
                "zstd decompression failed: "@,
            ),
        },
{
    match zstd_decode_all(archive) {
        Ok(v) => Ok(v),
        Err(e) => Err(archive_error("zstd decompression failed: ", &e)),
    }
}

} // verus!
