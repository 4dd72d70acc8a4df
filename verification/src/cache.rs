//! The archive cache: a cheap fingerprint of a directory walk (relative
//! path, size and modification time of every file) names the cached
//! compressed archive of that directory, so an unchanged directory is not
//! packed again.
//!
//! Walking the directory and reading file metadata is the caller's side;
//! it hands each entry over as plain values.
use vstd::prelude::*;
use vstd::multiset::Multiset;
use crate::bytes::{le64_bytes, push_bytes, push_le64};
use crate::digest::{hex_encode, hex_lower, sha256, sha256_of};
use crate::text::{
    chars_eq, chars_of, lemma_lex_irreflexive, lemma_lex_total, lemma_lex_transitive, lex_less,
    lex_lt, push_str, string_of, sub_chars, views,
};

verus! {

/// One entry of a directory walk: its path relative to the walked
/// directory (as the bytes of its lossy UTF-8 text) and that path's
/// components, whether it is a directory, and, for a file whose metadata
/// could be read, its size and modification time in whole seconds since
/// the Unix epoch.
#[derive(Debug, Clone)]
pub struct WalkEntry {
    pub rel_path: Vec<u8>,
    pub components: Vec<String>,
    pub is_dir: bool,
    pub stat: Option<(u64, u64)>,
}

/// The bytes one entry contributes to the fingerprint: nothing for a
/// directory; a file's path, then its size and mtime as 8 bytes LE each
/// when they are known.
pub open spec fn entry_input(e: WalkEntry) -> Seq<u8> {
    if e.is_dir {
        Seq::empty()
    } else {
        match e.stat {
            Some((len, mtime)) => e.rel_path@ + le64_bytes(len as nat) + le64_bytes(mtime as nat),
            None => e.rel_path@,
        }
    }
}

/// Everything that is hashed for the entries `es`, in order.
pub open spec fn fingerprint_input(es: Seq<WalkEntry>) -> Seq<u8>
    decreases es.len(),
{
    if es.len() == 0 {
        Seq::empty()
    } else {
        fingerprint_input(es.drop_last()) + entry_input(es.last())
    }
}

/// The fingerprint of the entries `es`: the first 24 lower-case hex digits
/// of the SHA-256 of `fingerprint_input(es)`.
pub open spec fn fingerprint_of(es: Seq<WalkEntry>) -> Seq<char> {
    hex_lower(sha256_of(fingerprint_input(es))).take(24)
}

/// Hex text is two digits per byte.
pub proof fn lemma_hex_len(data: Seq<u8>)
    ensures
        hex_lower(data).len() == 2 * data.len(),
    decreases data.len(),
{
    if data.len() > 0 {
        lemma_hex_len(data.drop_last());
    }
}

/// The bytes hashed for `entries`, built in walk order.
pub fn fingerprint_bytes(entries: &[WalkEntry]) -> (r: Vec<u8>)
    ensures
        r@ == fingerprint_input(entries@),
{
    let mut out: Vec<u8> = Vec::new();
    for i in 0..entries.len()
        invariant
            out@ == fingerprint_input(entries@.take(i as int)),
    {
        let e = &entries[i];
        assert(entries@.take(i + 1).drop_last() =~= entries@.take(i as int));
        if !e.is_dir {
            push_bytes(&mut out, e.rel_path.as_slice());
            match e.stat {
                Some((len, mtime)) => {
                    push_le64(&mut out, len);
                    push_le64(&mut out, mtime);
                },
                None => {},
            }
        }
        assert(out@ == fingerprint_input(entries@.take(i + 1)));
    }
    assert(entries@.take(entries.len() as int) =~= entries@);
    out
}

/// A cheap fingerprint of a directory's contents, from its sorted walk:
/// the relative path, size and modification time of every file (not their
/// contents), hashed with SHA-256; the first 24 hex digits. Two walks that
/// agree on those give the same fingerprint.
pub fn fingerprint(entries: &[WalkEntry]) -> (s: String)
    ensures
        s@ == fingerprint_of(entries@),
{
    let input = fingerprint_bytes(entries);
    let digest = sha256(input.as_slice());
    let hex = hex_encode(&digest);
    proof {
        lemma_hex_len(digest@);
    }
    let chars = chars_of(hex.as_str());
    let head = sub_chars(chars.as_slice(), 0, 24);
    assert(head@ =~= hex_lower(sha256_of(fingerprint_input(entries@))).take(24));
    string_of(head.as_slice())
}

/// The cache file for the `kind` ("php" or "app") archive of a directory
/// whose fingerprint is `fp`: `<kind>-<fp>.tar.zst`.
pub fn cache_file_name(kind: &str, fp: &str) -> (s: String)
    ensures
        s@ == kind@ + "-"@ + fp@ + ".tar.zst"@,
{
    let mut s = String::new();
    push_str(&mut s, kind);
    push_str(&mut s, "-");
    push_str(&mut s, fp);
    push_str(&mut s, ".tar.zst");
    s
}


/// The components of an entry's path.
pub open spec fn comps(e: WalkEntry) -> Seq<Seq<char>> {
    e.components@.map_values(|c: String| c@)
}

/// `a` comes strictly before `b` as paths are ordered: component by
/// component, each compared as text, a path before any longer path it
/// begins.
pub open spec fn path_lt(a: Seq<Seq<char>>, b: Seq<Seq<char>>) -> bool
    decreases a.len(),
{
    if a.len() == 0 {
        b.len() > 0
    } else if b.len() == 0 {
        false
    } else if a[0] != b[0] {
        lex_lt(a[0], b[0])
    } else {
        path_lt(a.drop_first(), b.drop_first())
    }
}

/// Two different paths are ordered one way or the other, never both.
pub proof fn lemma_path_total(a: Seq<Seq<char>>, b: Seq<Seq<char>>)
    ensures
        a != b ==> (path_lt(a, b) || path_lt(b, a)),
        !(path_lt(a, b) && path_lt(b, a)),
    decreases a.len(),
{
    if a.len() > 0 && b.len() > 0 {
        if a[0] == b[0] {
            lemma_path_total(a.drop_first(), b.drop_first());
            if a != b {
                assert(a == seq![a[0]] + a.drop_first());
                assert(b == seq![b[0]] + b.drop_first());
            }
        } else {
            lemma_lex_total(a[0], b[0]);
        }
    } else if a.len() == 0 && b.len() == 0 {
        assert(a =~= b);
    }
}

/// The path order is transitive.
pub proof fn lemma_path_transitive(a: Seq<Seq<char>>, b: Seq<Seq<char>>, c: Seq<Seq<char>>)
    requires
        path_lt(a, b),
        path_lt(b, c),
    ensures
        path_lt(a, c),
    decreases a.len(),
{
    if a.len() > 0 && b.len() > 0 && c.len() > 0 {
        if a[0] == b[0] && b[0] == c[0] {
            lemma_path_transitive(a.drop_first(), b.drop_first(), c.drop_first());
        } else if a[0] != b[0] && b[0] != c[0] {
            lemma_lex_transitive(a[0], b[0], c[0]);
            lemma_lex_irreflexive(a[0]);
        } else if a[0] != b[0] {
            lemma_lex_irreflexive(a[0]);
        } else {
            lemma_lex_irreflexive(b[0]);
        }
    }
}

/// Whether the path with components `a` comes strictly before `b`.
fn path_less(a: &Vec<Vec<char>>, b: &Vec<Vec<char>>) -> (r: bool)
    ensures
        r == path_lt(views(a@), views(b@)),
{
    let ghost va = views(a@);
    let ghost vb = views(b@);
    let mut i: usize = 0;
    assert(va.skip(0) =~= va);
    assert(vb.skip(0) =~= vb);
    while i < a.len() && i < b.len()
        invariant
            i <= a.len(),
            i <= b.len(),
            va == views(a@),
            vb == views(b@),
            path_lt(va, vb) == path_lt(va.skip(i as int), vb.skip(i as int)),
        decreases a.len() - i,
    {
        let ghost x = va.skip(i as int);
        let ghost y = vb.skip(i as int);
        assert(x[0] == a@[i as int]@ && y[0] == b@[i as int]@);
        if !chars_eq(a[i].as_slice(), b[i].as_slice()) {
            return lex_less(a[i].as_slice(), b[i].as_slice());
        }
        assert(x.drop_first() =~= va.skip(i + 1));
        assert(y.drop_first() =~= vb.skip(i + 1));
        i = i + 1;
    }
    b.len() > i
}

/// The components of `e` as character vectors.
fn key_of(e: &WalkEntry) -> (k: Vec<Vec<char>>)
    ensures
        views(k@) == comps(*e),
{
    let mut k: Vec<Vec<char>> = Vec::new();
    for i in 0..e.components.len()
        invariant
            views(k@) == comps(*e).take(i as int),
    {
        let c = chars_of(e.components[i].as_str());
        let ghost before = views(k@);
        k.push(c);
        assert(comps(*e)[i as int] == e.components@[i as int]@);
        assert(views(k@) =~= before.push(e.components@[i as int]@));
        assert(comps(*e).take(i + 1) =~= comps(*e).take(i as int).push(comps(*e)[i as int]));
    }
    assert(comps(*e).take(e.components.len() as int) =~= comps(*e));
    k
}

/// The component sequences of a list of keys.
pub open spec fn key_views(keys: Seq<Vec<Vec<char>>>) -> Seq<Seq<Seq<char>>> {
    keys.map_values(|k: Vec<Vec<char>>| views(k@))
}

/// The component sequences of a list of entries.
pub open spec fn entry_comps(es: Seq<WalkEntry>) -> Seq<Seq<Seq<char>>> {
    es.map_values(|e: WalkEntry| comps(e))
}

/// `s` is in non-decreasing path order.
pub open spec fn path_sorted(s: Seq<Seq<Seq<char>>>) -> bool {
    forall|i: int, j: int| 0 <= i < j < s.len() ==> !path_lt(#[trigger] s[j], #[trigger] s[i])
}

/// Puts `x` (with its key `kx`) into the sorted `out`, after any entries
/// with the same path.
fn insert_entry(out: &mut Vec<WalkEntry>, keys: &mut Vec<Vec<Vec<char>>>, x: WalkEntry, kx: Vec<Vec<char>>)
    requires
        key_views(old(keys)@) == entry_comps(old(out)@),
        path_sorted(entry_comps(old(out)@)),
        views(kx@) == comps(x),
    ensures
        key_views(final(keys)@) == entry_comps(final(out)@),
        path_sorted(entry_comps(final(out)@)),
        final(out)@.to_multiset() == old(out)@.to_multiset().insert(x),
{
    let ghost s = entry_comps(out@);
    let ghost xv = comps(x);
    let mut p: usize = 0;
    assert(key_views(keys@).len() == keys@.len());
    assert(entry_comps(out@).len() == out@.len());
    while p < keys.len() && !path_less(&kx, &keys[p])
        invariant
            p <= keys.len(),
            keys.len() == out.len(),
            key_views(keys@) == s,
            s == entry_comps(out@),
            views(kx@) == xv,
            forall|k: int| 0 <= k < p ==> !path_lt(xv, #[trigger] s[k]),
        decreases keys.len() - p,
    {
        assert(s[p as int] == views(keys@[p as int]@));
        p = p + 1;
    }
    proof {
        if p < keys.len() {
            assert(s[p as int] == views(keys@[p as int]@));
        }
        assert forall|k: int| p <= k < s.len() implies path_lt(xv, #[trigger] s[k]) by {
            if k > p {
                lemma_path_total(s[p as int], s[k]);
                if path_lt(s[p as int], s[k]) {
                    lemma_path_transitive(xv, s[p as int], s[k]);
                }
            }
        }
    }
    let ghost old_out = out@;
    out.insert(p, x);
    keys.insert(p, kx);
    let ghost t = entry_comps(out@);
    assert(out@ =~= old_out.insert(p as int, x));
    assert(t =~= s.insert(p as int, xv));
    assert(key_views(keys@) =~= t);
    assert forall|i: int, j: int| 0 <= i < j < t.len() implies !path_lt(#[trigger] t[j], #[trigger] t[i]) by {
        if j < p {
        } else if j == p {
            lemma_path_total(xv, t[i]);
        } else if i < p {
            lemma_path_total(xv, t[i]);
            lemma_path_total(t[j], xv);
            if path_lt(t[j], t[i]) {
                lemma_path_transitive(xv, t[j], t[i]);
            }
        } else if i == p {
            lemma_path_total(t[j], xv);
        } else {
        }
    }
    proof {
        vstd::seq_lib::to_multiset_insert(old_out, p as int, x);
    }
}

/// An empty sequence holds nothing.
proof fn lemma_no_entries(s: Seq<WalkEntry>)
    requires
        s.len() == 0,
    ensures
        s.to_multiset() == Multiset::<WalkEntry>::empty(),
{
    vstd::seq_lib::to_multiset_len(s);
    vstd::multiset::lemma_multiset_empty_len(s.to_multiset());
}

/// Sorts a directory walk by path, as `Path`'s order compares them
/// (component by component), so that the fingerprint and the archive see
/// the entries in one fixed order whatever order the walk found them in.
pub fn sort_walk(entries: Vec<WalkEntry>) -> (r: Vec<WalkEntry>)
    ensures
        path_sorted(entry_comps(r@)),
        r@.to_multiset() == entries@.to_multiset(),
{
    let mut rest = entries;
    let mut out: Vec<WalkEntry> = Vec::new();
    let mut keys: Vec<Vec<Vec<char>>> = Vec::new();
    let ghost orig = rest@;
    assert(key_views(keys@) =~= entry_comps(out@));
    proof {
        lemma_no_entries(out@);
        broadcast use vstd::multiset::group_multiset_axioms;
        assert(out@.to_multiset().add(rest@.to_multiset()) =~= orig.to_multiset());
    }
    while rest.len() > 0
        invariant
            key_views(keys@) == entry_comps(out@),
            path_sorted(entry_comps(out@)),
            out@.to_multiset().add(rest@.to_multiset()) == orig.to_multiset(),
        decreases rest.len(),
    {
        let ghost before = rest@;
        let x = rest.pop().unwrap();
        proof {
            assert(before =~= rest@.push(x));
            vstd::seq_lib::to_multiset_build(rest@, x);
            broadcast use vstd::multiset::group_multiset_axioms;
        }
        let kx = key_of(&x);
        let ghost out_before = out@;
        insert_entry(&mut out, &mut keys, x, kx);
        proof {
            broadcast use vstd::multiset::group_multiset_axioms;
            assert(out@.to_multiset().add(rest@.to_multiset()) =~= orig.to_multiset());
        }
    }
    proof {
        broadcast use vstd::multiset::group_multiset_axioms;
        lemma_no_entries(rest@);
        assert(out@.to_multiset() =~= orig.to_multiset());
    }
    out
}

} // verus!
