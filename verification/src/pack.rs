//! `.pack` files: a registered PHP install's compressed archive, saved once
//! so that later builds read it straight off disk.
//!
//! Layout: `[magic "RUXPACK1"][sha256(archive): 32 bytes][archive_len: u64 LE][archive]`.
//! Reading and writing the file is the caller's side; this module builds the
//! bytes and checks what was read.
use vstd::prelude::*;
use crate::bytes::{le64_at, le64_bytes, lemma_le64_at_same, lemma_le64_roundtrip, push_bytes, push_le64, read_le64};
use crate::digest::{check_digest, hex_lower, sha256, sha256_of};
use crate::error::LauncherError;
use crate::paths::{stem_and_extension, stem_ext};
use crate::text::{chars_of, chars_eq, lex_less, lex_lt, lemma_lex_total, lemma_lex_transitive, lemma_lex_irreflexive, push_str, string_of, views};

verus! {

broadcast use vstd::seq_lib::to_multiset_insert, vstd::seq_lib::to_multiset_build;

/// `RUXPACK1`
pub open spec fn pack_magic() -> Seq<u8> {
    seq![0x52u8, 0x55u8, 0x58u8, 0x50u8, 0x41u8, 0x43u8, 0x4bu8, 0x31u8]
}

fn pack_magic_bytes() -> (r: [u8; 8])
    ensures
        r@ == pack_magic(),
{
    let r = [0x52u8, 0x55u8, 0x58u8, 0x50u8, 0x41u8, 0x43u8, 0x4bu8, 0x31u8];
    assert(r@ =~= pack_magic());
    r
}

/// The bytes of the `.pack` file for `archive`.
pub open spec fn pack_bytes(archive: Seq<u8>) -> Seq<u8> {
    pack_magic() + sha256_of(archive) + le64_bytes(archive.len()) + archive
}

/// Builds the `.pack` file for the compressed archive `archive`.
pub fn build_pack(archive: &[u8]) -> (r: Vec<u8>)
    ensures
        r@ == pack_bytes(archive@),
{
    let checksum = sha256(archive);
    let mut out: Vec<u8> = Vec::new();
    let magic = pack_magic_bytes();
    push_bytes(&mut out, &magic);
    push_bytes(&mut out, &checksum);
    push_le64(&mut out, archive.len() as u64);
    push_bytes(&mut out, archive);
    out
}

/// The header fields of a `.pack` file whose first 48 bytes are `h`: the
/// archive's checksum and length, or `None` for a bad magic.
pub open spec fn pack_header(h: Seq<u8>) -> Option<(Seq<u8>, nat)> {
    if h.subrange(0, 8) != pack_magic() {
        None
    } else {
        Some((h.subrange(8, 40), le64_at(h, 40)))
    }
}

/// The message for a file at `path` that is not a `.pack`.
pub open spec fn bad_magic_message(path: Seq<char>) -> Seq<char> {
    seq!['\''] + path + "' doesn't look like a Ruxius .pack file (bad magic)"@
}

/// Reads the 48-byte header of the `.pack` file shown as `path`: the
/// archive's expected checksum and its length.
pub fn parse_pack_header(path: &str, header: &[u8]) -> (r: Result<([u8; 32], u64), LauncherError>)
    requires
        header.len() == 48,
    ensures
        match pack_header(header@) {
            Some((sum, len)) => r matches Ok((s, l)) && s@ == sum && l == len,
            None => r matches Err(LauncherError::Archive(m)) && m@ == bad_magic_message(path@),
        },
{
    let magic = pack_magic_bytes();
    let mut k: usize = 0;
    while k < 8
        invariant
            header.len() == 48,
            magic@ == pack_magic(),
            k <= 8,
            forall|m: int| 0 <= m < k ==> header@[m] == magic@[m],
        decreases 8 - k,
    {
        if header[k] != magic[k] {
            assert(header@.subrange(0, 8)[k as int] != pack_magic()[k as int]);
            let mut m = String::new();
            crate::text::push_char(&mut m, '\'');
            push_str(&mut m, path);
            push_str(&mut m, "' doesn't look like a Ruxius .pack file (bad magic)");
            return Err(LauncherError::Archive(m));
        }
        k = k + 1;
    }
    assert(header@.subrange(0, 8) =~= pack_magic());
    let mut checksum = [0u8; 32];
    for i in 0..32
        invariant
            header.len() == 48,
            forall|m: int| 0 <= m < i ==> checksum@[m] == header@[8 + m],
    {
        checksum[i] = header[8 + i];
    }
    assert(checksum@ =~= header@.subrange(8, 40));
    let len = read_le64(header, 40);
    Ok((checksum, len))
}

/// Hands back the archive read from a `.pack` file when it matches the
/// checksum of its header; a corrupt or tampered pack is an error.
pub fn verify_pack(expected: &[u8; 32], archive: Vec<u8>) -> (r: Result<Vec<u8>, LauncherError>)
    ensures
        sha256_of(archive@) == expected@ ==> (r matches Ok(b) && b@ == archive@),
        sha256_of(archive@) != expected@ ==> (r matches Err(
            LauncherError::ChecksumMismatch { expected: e, actual: a },
        ) && e@ == hex_lower(expected@) && a@ == hex_lower(sha256_of(archive@))),
{
    check_digest(archive, expected)
}

/// A pack built by `build_pack` reads back whole: its header
/// (`parse_pack_header`) gives the archive's checksum and length, the file
/// holds exactly that many bytes after the header, those bytes are the
/// archive, and their digest is the header's checksum, so `verify_pack`
/// hands the archive back.
pub proof fn law_pack_roundtrip(archive: Seq<u8>)
    requires
        sha256_of(archive).len() == 32,
        archive.len() < 18446744073709551616,
    ensures
        pack_header(pack_bytes(archive).subrange(0, 48)) == Some((sha256_of(archive), archive.len())),
        pack_bytes(archive).len() == 48 + archive.len(),
        pack_bytes(archive).subrange(48, 48 + archive.len() as int) == archive,
        sha256_of(pack_bytes(archive).subrange(48, 48 + archive.len() as int)) == sha256_of(archive),
{
    let p = pack_bytes(archive);
    let h = p.subrange(0, 48);
    let lb = le64_bytes(archive.len());
    assert(h.subrange(0, 8) =~= pack_magic());
    assert(h.subrange(8, 40) =~= sha256_of(archive));
    assert(h.subrange(40, 48) =~= lb.subrange(0, 8));
    lemma_le64_at_same(h, 40, lb, 0);
    lemma_le64_roundtrip(archive.len());
    assert(p.subrange(48, 48 + archive.len() as int) =~= archive);
}

/// The file a registered install's pack is kept in: `<name>.pack`.
pub fn pack_file_name(name: &str) -> (r: String)
    ensures
        r@ == name@ + ".pack"@,
{
    let mut s = String::new();
    push_str(&mut s, name);
    push_str(&mut s, ".pack");
    s
}

/// The temporary file a pack is first written to, then renamed from, so
/// an interrupted write never leaves a half-written `<name>.pack`:
/// `.<name>.pack.tmp`.
pub fn pack_temp_name(name: &str) -> (r: String)
    ensures
        r@ == "."@ + name@ + ".pack.tmp"@,
{
    let mut s = String::new();
    push_str(&mut s, ".");
    push_str(&mut s, name);
    push_str(&mut s, ".pack.tmp");
    s
}

/// `s` is in non-decreasing `lex_lt` order.
pub open spec fn sorted(s: Seq<Seq<char>>) -> bool {
    forall|i: int, j: int| 0 <= i < j < s.len() ==> !lex_lt(#[trigger] s[j], #[trigger] s[i])
}

/// The pack name a file in the packs directory stands for: its stem, if its
/// extension is exactly `pack`.
pub open spec fn pack_name_of(file: Seq<char>) -> Option<Seq<char>> {
    if stem_ext(file).1 == Some(seq!['p', 'a', 'c', 'k']) {
        Some(stem_ext(file).0)
    } else {
        None
    }
}

/// The pack names among the first `n` of `files`, in directory order.
pub open spec fn pack_names_upto(files: Seq<Seq<char>>, n: nat) -> Seq<Seq<char>>
    decreases n,
{
    if n == 0 {
        seq![]
    } else {
        let prev = pack_names_upto(files, (n - 1) as nat);
        match pack_name_of(files[n - 1]) {
            Some(name) => prev.push(name),
            None => prev,
        }
    }
}

/// Puts `x` into the sorted `v`, after any equal names.
fn insert_sorted(v: &mut Vec<Vec<char>>, x: Vec<char>)
    requires
        sorted(views(old(v)@)),
    ensures
        sorted(views(final(v)@)),
        views(final(v)@).to_multiset() == views(old(v)@).to_multiset().insert(x@),
{
    let ghost s = views(v@);
    let mut p: usize = 0;
    while p < v.len() && !lex_less(x.as_slice(), v[p].as_slice())
        invariant
            p <= v.len(),
            s == views(v@),
            forall|k: int| 0 <= k < p ==> !lex_lt(x@, #[trigger] s[k]),
        decreases v.len() - p,
    {
        p = p + 1;
    }
    proof {
        assert forall|k: int| p <= k < s.len() implies lex_lt(x@, #[trigger] s[k]) by {
            if k > p {
                lemma_lex_total(s[p as int], s[k]);
                if lex_lt(s[p as int], s[k]) {
                    lemma_lex_transitive(x@, s[p as int], s[k]);
                } else if s[p as int] == s[k] {
                } else {
                }
            }
        }
    }
    let ghost xv = x@;
    v.insert(p, x);
    let ghost t = views(v@);
    assert(t =~= s.insert(p as int, xv));
    assert forall|i: int, j: int| 0 <= i < j < t.len() implies !lex_lt(#[trigger] t[j], #[trigger] t[i]) by {
        if j < p {
        } else if j == p {
            lemma_lex_total(xv, t[i]);
        } else if i < p {
            lemma_lex_total(xv, t[i]);
            lemma_lex_total(t[j], xv);
            if lex_lt(t[j], t[i]) {
                lemma_lex_transitive(xv, t[j], t[i]);
            }
        } else if i == p {
            lemma_lex_total(t[j], xv);
        } else {
        }
    }
}

/// The names of the `.pack` files among `file_names` (the entries of the
/// packs directory), without the extension, sorted.
pub fn list_names(file_names: &Vec<String>) -> (r: Vec<String>)
    ensures
        sorted(r@.map_values(|s: String| s@)),
        r@.map_values(|s: String| s@).to_multiset() == pack_names_upto(
            file_names@.map_values(|s: String| s@),
            file_names.len() as nat,
        ).to_multiset(),
{
    let ghost files = file_names@.map_values(|s: String| s@);
    let pack = chars_of("pack");
    proof {
        reveal_strlit("pack");
        assert(pack@ =~= seq!['p', 'a', 'c', 'k']);
    }
    let mut names: Vec<Vec<char>> = Vec::new();
    assert(views(names@) =~= pack_names_upto(files, 0));
    for k in 0..file_names.len()
        invariant
            files == file_names@.map_values(|s: String| s@),
            pack@ == seq!['p', 'a', 'c', 'k'],
            sorted(views(names@)),
            views(names@).to_multiset() == pack_names_upto(files, k as nat).to_multiset(),
    {
        let name = chars_of(file_names[k].as_str());
        let (stem, ext) = stem_and_extension(name.as_slice());
        let ghost prev = pack_names_upto(files, k as nat);
        if let Some(e) = ext {
            if chars_eq(e.as_slice(), pack.as_slice()) {
                let ghost sv = stem@;
                insert_sorted(&mut names, stem);
                assert(pack_names_upto(files, (k + 1) as nat) == prev.push(sv));
            }
        }
    }
    let mut out: Vec<String> = Vec::new();
    for k in 0..names.len()
        invariant
            out@.map_values(|s: String| s@) == views(names@).take(k as int),
    {
        let ghost before = out@.map_values(|s: String| s@);
        let s = string_of(names[k].as_slice());
        let ghost sv = s@;
        out.push(s);
        assert(out@.map_values(|s: String| s@) =~= before.push(sv));
        assert(views(names@).take(k + 1) =~= views(names@).take(k as int).push(sv));
    }
    assert(views(names@).take(names.len() as int) =~= views(names@));
    out
}

} // verus!
