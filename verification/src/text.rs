//! Character-level helpers shared by the ini, html and path code.
//!
//! Strings are handled as `Vec<char>` inside the verified code; their view
//! is a `Seq<char>`, and the spec functions below say what each helper
//! computes on such sequences.
use vstd::prelude::*;

verus! {

/// Unicode `White_Space`: the characters `char::is_whitespace` accepts.
pub open spec fn is_ws(c: char) -> bool {
    ||| c == ' '
    ||| ('\t' <= c && c <= '\r')
    ||| c == '\u{85}'
    ||| c == '\u{a0}'
    ||| c == '\u{1680}'
    ||| ('\u{2000}' <= c && c <= '\u{200a}')
    ||| c == '\u{2028}'
    ||| c == '\u{2029}'
    ||| c == '\u{202f}'
    ||| c == '\u{205f}'
    ||| c == '\u{3000}'
}

/// The character sequences held by a sequence of character vectors.
pub open spec fn views(v: Seq<Vec<char>>) -> Seq<Seq<char>> {
    v.map_values(|l: Vec<char>| l@)
}

/// `s` with its leading whitespace removed.
pub open spec fn trim_start(s: Seq<char>) -> Seq<char>
    decreases s.len(),
{
    if s.len() > 0 && is_ws(s[0]) {
        trim_start(s.drop_first())
    } else {
        s
    }
}

/// `s` with its trailing whitespace removed.
pub open spec fn trim_end(s: Seq<char>) -> Seq<char>
    decreases s.len(),
{
    if s.len() > 0 && is_ws(s.last()) {
        trim_end(s.drop_last())
    } else {
        s
    }
}

/// `s` with whitespace removed at both ends, as `str::trim` does.
pub open spec fn trim(s: Seq<char>) -> Seq<char> {
    trim_end(trim_start(s))
}

/// Trimming the end of `a + b` keeps `a` whole when `b` has a character
/// that is not whitespace.
pub proof fn lemma_trim_end_concat(a: Seq<char>, b: Seq<char>)
    requires
        trim_end(b).len() > 0,
    ensures
        trim_end(a + b) == a + trim_end(b),
    decreases b.len(),
{
    if b.len() == 0 {
    } else if is_ws(b.last()) {
        assert((a + b).drop_last() =~= a + b.drop_last());
        lemma_trim_end_concat(a, b.drop_last());
    } else {
        assert((a + b).last() == b.last());
    }
}

/// Trailing whitespace `b` disappears when the end of `a + b` is trimmed.
pub proof fn lemma_trim_end_blank(a: Seq<char>, b: Seq<char>)
    requires
        trim_end(b).len() == 0,
    ensures
        trim_end(a + b) == trim_end(a),
    decreases b.len(),
{
    if b.len() == 0 {
        assert(a + b =~= a);
    } else {
        assert(is_ws(b.last()));
        assert((a + b).drop_last() =~= a + b.drop_last());
        assert((a + b).last() == b.last());
        lemma_trim_end_blank(a, b.drop_last());
    }
}

/// Trimming the two ends can be done in either order.
pub proof fn lemma_trim_commutes(s: Seq<char>)
    ensures
        trim_start(trim_end(s)) == trim_end(trim_start(s)),
    decreases s.len(),
{
    if s.len() > 0 {
        let s1 = s.drop_first();
        let h = seq![s[0]];
        assert(s =~= h + s1);
        if is_ws(s[0]) {
            lemma_trim_commutes(s1);
            assert(trim_start(s) == trim_start(s1));
        } else {
            assert(trim_start(s) == s);
        }
        if trim_end(s1).len() > 0 {
            lemma_trim_end_concat(h, s1);
            let t = h + trim_end(s1);
            assert(t[0] == s[0]);
            assert(t.drop_first() =~= trim_end(s1));
            if is_ws(s[0]) {
                assert(trim_start(t) == trim_start(t.drop_first()));
            } else {
                assert(trim_start(t) == t);
            }
        } else {
            lemma_trim_end_blank(h, s1);
            assert(h.drop_last() =~= Seq::<char>::empty());
            if is_ws(s[0]) {
                assert(trim_end(h) == trim_end(h.drop_last()));
                assert(trim_end(Seq::<char>::empty()) == Seq::<char>::empty());
                assert(trim_start(Seq::<char>::empty()) == Seq::<char>::empty());
            } else {
                assert(trim_end(h) == h);
                assert(h[0] == s[0]);
                assert(trim_start(h) == h);
            }
        }
    }
}

/// A trimmed start is empty or begins with a character that is not
/// whitespace.
pub proof fn lemma_trim_start_first(s: Seq<char>)
    ensures
        trim_start(s).len() == 0 || !is_ws(trim_start(s)[0]),
        trim_start(s).len() <= s.len(),
    decreases s.len(),
{
    if s.len() > 0 && is_ws(s[0]) {
        lemma_trim_start_first(s.drop_first());
    }
}

/// A trimmed end is empty or ends with a character that is not whitespace.
pub proof fn lemma_trim_end_last(s: Seq<char>)
    ensures
        trim_end(s).len() == 0 || !is_ws(trim_end(s).last()),
        trim_end(s).len() <= s.len(),
        trim_end(s).len() > 0 ==> trim_end(s)[0] == s[0],
    decreases s.len(),
{
    if s.len() > 0 && is_ws(s.last()) {
        lemma_trim_end_last(s.drop_last());
    }
}

/// A sequence without whitespace at either end is its own trim.
pub proof fn lemma_trim_fixed(s: Seq<char>)
    requires
        s.len() == 0 || (!is_ws(s[0]) && !is_ws(s.last())),
    ensures
        trim_start(s) == s,
        trim_end(s) == s,
        trim(s) == s,
{
}

/// `s` begins with `p`.
pub open spec fn has_prefix(s: Seq<char>, p: Seq<char>) -> bool {
    p.len() <= s.len() && s.take(p.len() as int) == p
}

/// `s` ends with `p`.
pub open spec fn has_suffix(s: Seq<char>, p: Seq<char>) -> bool {
    p.len() <= s.len() && s.skip(s.len() - p.len()) == p
}

/// An ASCII upper-case letter.
pub open spec fn is_upper(c: char) -> bool {
    'A' <= c && c <= 'Z'
}

/// `c` with ASCII upper-case letters mapped to lower case.
pub open spec fn lower_char(c: char) -> char {
    if is_upper(c) {
        ((c as u32) + 32) as char
    } else {
        c
    }
}

/// `s` with every ASCII upper-case letter mapped to lower case.
pub open spec fn lower(s: Seq<char>) -> Seq<char> {
    s.map_values(|c: char| lower_char(c))
}

/// An ASCII letter or digit.
pub open spec fn is_alnum(c: char) -> bool {
    ||| ('a' <= c && c <= 'z')
    ||| ('A' <= c && c <= 'Z')
    ||| ('0' <= c && c <= '9')
}

/// Whether `c` is whitespace.
pub fn is_whitespace(c: char) -> (b: bool)
    ensures
        b == is_ws(c),
{
    c == ' ' || ('\t' <= c && c <= '\r') || c == '\u{85}' || c == '\u{a0}' || c == '\u{1680}'
        || ('\u{2000}' <= c && c <= '\u{200a}') || c == '\u{2028}' || c == '\u{2029}' || c
        == '\u{202f}' || c == '\u{205f}' || c == '\u{3000}'
}

/// `c` in ASCII lower case.
pub fn to_lower(c: char) -> (r: char)
    ensures
        r == lower_char(c),
{
    if 'A' <= c && c <= 'Z' {
        ((c as u8) + 32u8) as char
    } else {
        c
    }
}

/// The characters of `s`, in order.
pub fn chars_of(s: &str) -> (v: Vec<char>)
    ensures
        v@ == s@,
{
    let mut v: Vec<char> = Vec::new();
    for c in it: s.chars()
        invariant
            v@ == it.seq().take(it.index() as int),
            it.seq() == s@,
    {
        v.push(c);
    }
    v
}

/// `String::push`. Claimed, as std documents it: the string afterwards is
/// the string before followed by `c`.
#[verifier::external_body]
pub(crate) fn push_char(s: &mut String, c: char)
    ensures
        final(s)@ == old(s)@.push(c),
{
    s.push(c);
}

/// Appends the characters `v` to `s`.
pub fn push_chars(s: &mut String, v: &[char])
    ensures
        final(s)@ == old(s)@ + v@,
{
    let ghost start = s@;
    for i in 0..v.len()
        invariant
            s@ == start + v@.take(i as int),
    {
        push_char(s, v[i]);
        assert(v@.take(i + 1) == v@.take(i as int).push(v@[i as int]));
    }
    assert(v@.take(v.len() as int) == v@);
}

/// The string made of the characters `v`.
pub fn string_of(v: &[char]) -> (s: String)
    ensures
        s@ == v@,
{
    let mut s = String::new();
    push_chars(&mut s, v);
    s
}

/// Appends `t` to `s`.
pub fn push_str(s: &mut String, t: &str)
    ensures
        final(s)@ == old(s)@ + t@,
{
    let v = chars_of(t);
    push_chars(s, v.as_slice());
}

/// The characters `v[lo..hi]`.
pub fn sub_chars(v: &[char], lo: usize, hi: usize) -> (r: Vec<char>)
    requires
        lo <= hi <= v.len(),
    ensures
        r@ == v@.subrange(lo as int, hi as int),
{
    let mut r: Vec<char> = Vec::new();
    let mut i = lo;
    while i < hi
        invariant
            lo <= i <= hi <= v.len(),
            r@ == v@.subrange(lo as int, i as int),
        decreases hi - i,
    {
        r.push(v[i]);
        i = i + 1;
    }
    r
}

/// Index of the first character of `v@.subrange(lo, hi)` that is not
/// whitespace, or `hi`.
pub fn skip_ws(v: &[char], lo: usize, hi: usize) -> (i: usize)
    requires
        lo <= hi <= v.len(),
    ensures
        lo <= i <= hi,
        v@.subrange(i as int, hi as int) == trim_start(v@.subrange(lo as int, hi as int)),
{
    let mut i = lo;
    while i < hi && is_whitespace(v[i])
        invariant
            lo <= i <= hi <= v.len(),
            trim_start(v@.subrange(i as int, hi as int)) == trim_start(
                v@.subrange(lo as int, hi as int),
            ),
        decreases hi - i,
    {
        assert(v@.subrange(i as int, hi as int).drop_first() == v@.subrange(i + 1, hi as int));
        i = i + 1;
    }
    i
}

/// End of `v@.subrange(lo, hi)` once its trailing whitespace is dropped.
pub fn skip_ws_back(v: &[char], lo: usize, hi: usize) -> (j: usize)
    requires
        lo <= hi <= v.len(),
    ensures
        lo <= j <= hi,
        v@.subrange(lo as int, j as int) == trim_end(v@.subrange(lo as int, hi as int)),
{
    let mut j = hi;
    while j > lo && is_whitespace(v[j - 1])
        invariant
            lo <= j <= hi <= v.len(),
            trim_end(v@.subrange(lo as int, j as int)) == trim_end(
                v@.subrange(lo as int, hi as int),
            ),
        decreases j - lo,
    {
        assert(v@.subrange(lo as int, j as int).drop_last() == v@.subrange(lo as int, j - 1));
        j = j - 1;
    }
    j
}

/// Bounds of `v@.subrange(lo, hi)` once whitespace is trimmed at both ends.
pub fn trim_bounds(v: &[char], lo: usize, hi: usize) -> (r: (usize, usize))
    requires
        lo <= hi <= v.len(),
    ensures
        lo <= r.0 <= r.1 <= hi,
        v@.subrange(r.0 as int, r.1 as int) == trim(v@.subrange(lo as int, hi as int)),
{
    let a = skip_ws(v, lo, hi);
    let b = skip_ws_back(v, a, hi);
    (a, b)
}

/// Whether `v@.subrange(lo, hi)` begins with `p`.
pub fn starts_with_at(v: &[char], lo: usize, hi: usize, p: &[char]) -> (b: bool)
    requires
        lo <= hi <= v.len(),
    ensures
        b == has_prefix(v@.subrange(lo as int, hi as int), p@),
{
    if p.len() > hi - lo {
        return false;
    }
    let mut k: usize = 0;
    while k < p.len()
        invariant
            lo <= hi <= v.len(),
            p.len() <= hi - lo,
            k <= p.len(),
            forall|m: int| 0 <= m < k ==> v@[lo + m] == p@[m],
        decreases p.len() - k,
    {
        if v[lo + k] != p[k] {
            assert(v@.subrange(lo as int, hi as int).take(p.len() as int)[k as int] != p@[k as int]);
            return false;
        }
        k = k + 1;
    }
    assert(v@.subrange(lo as int, hi as int).take(p.len() as int) =~= p@);
    true
}

/// Whether `v@.subrange(lo, hi)` ends with `p`.
pub fn ends_with_at(v: &[char], lo: usize, hi: usize, p: &[char]) -> (b: bool)
    requires
        lo <= hi <= v.len(),
    ensures
        b == has_suffix(v@.subrange(lo as int, hi as int), p@),
{
    if p.len() > hi - lo {
        return false;
    }
    let start = hi - p.len();
    let r = starts_with_at(v, start, hi, p);
    assert(v@.subrange(start as int, hi as int) =~= v@.subrange(lo as int, hi as int).skip(
        (hi - lo) - p.len(),
    ));
    assert(v@.subrange(start as int, hi as int).take(p.len() as int) =~= v@.subrange(
        start as int,
        hi as int,
    ));
    r
}

/// `v` in ASCII lower case.
pub fn lower_chars(v: &[char]) -> (r: Vec<char>)
    ensures
        r@ == lower(v@),
{
    let mut r: Vec<char> = Vec::new();
    for i in 0..v.len()
        invariant
            r@ == lower(v@.take(i as int)),
    {
        r.push(to_lower(v[i]));
        assert(lower(v@.take(i + 1)) =~= lower(v@.take(i as int)).push(lower_char(v@[i as int])));
    }
    assert(v@.take(v.len() as int) == v@);
    r
}

/// Whether `a` and `b` hold the same characters.
pub fn chars_eq(a: &[char], b: &[char]) -> (r: bool)
    ensures
        r == (a@ == b@),
{
    if a.len() != b.len() {
        return false;
    }
    for i in 0..a.len()
        invariant
            a.len() == b.len(),
            forall|m: int| 0 <= m < i ==> a@[m] == b@[m],
    {
        if a[i] != b[i] {
            return false;
        }
    }
    assert(a@ =~= b@);
    true
}

/// `a` comes strictly before `b` in lexicographic order of code points,
/// the order in which `String`'s `Ord` sorts (UTF-8 keeps code point order).
pub open spec fn lex_lt(a: Seq<char>, b: Seq<char>) -> bool
    decreases a.len(),
{
    if a.len() == 0 {
        b.len() > 0
    } else if b.len() == 0 {
        false
    } else if a[0] != b[0] {
        a[0] < b[0]
    } else {
        lex_lt(a.drop_first(), b.drop_first())
    }
}

/// No sequence comes before itself.
pub proof fn lemma_lex_irreflexive(a: Seq<char>)
    ensures
        !lex_lt(a, a),
    decreases a.len(),
{
    if a.len() > 0 {
        lemma_lex_irreflexive(a.drop_first());
    }
}

/// Two different sequences are ordered one way or the other.
pub proof fn lemma_lex_total(a: Seq<char>, b: Seq<char>)
    ensures
        a != b ==> (lex_lt(a, b) || lex_lt(b, a)),
        !(lex_lt(a, b) && lex_lt(b, a)),
    decreases a.len(),
{
    if a.len() > 0 && b.len() > 0 {
        if a[0] == b[0] {
            lemma_lex_total(a.drop_first(), b.drop_first());
            if a != b {
                assert(a == seq![a[0]] + a.drop_first());
                assert(b == seq![b[0]] + b.drop_first());
            }
        }
    } else if a.len() == 0 && b.len() == 0 {
        assert(a =~= b);
    }
}

/// The order is transitive.
pub proof fn lemma_lex_transitive(a: Seq<char>, b: Seq<char>, c: Seq<char>)
    requires
        lex_lt(a, b),
        lex_lt(b, c),
    ensures
        lex_lt(a, c),
    decreases a.len(),
{
    if a.len() > 0 && b.len() > 0 && c.len() > 0 {
        if a[0] == b[0] && b[0] == c[0] {
            lemma_lex_transitive(a.drop_first(), b.drop_first(), c.drop_first());
        } else if a[0] != b[0] && b[0] == c[0] {
        } else if a[0] == b[0] && b[0] != c[0] {
        } else {
        }
    }
}

/// Whether `a` comes strictly before `b` (see `lex_lt`).
pub fn lex_less(a: &[char], b: &[char]) -> (r: bool)
    ensures
        r == lex_lt(a@, b@),
{
    let mut i: usize = 0;
    assert(a@.skip(0) =~= a@);
    assert(b@.skip(0) =~= b@);
    while i < a.len() && i < b.len()
        invariant
            i <= a.len(),
            i <= b.len(),
            lex_lt(a@, b@) == lex_lt(a@.skip(i as int), b@.skip(i as int)),
        decreases a.len() - i,
    {
        if a[i] != b[i] {
            return a[i] < b[i];
        }
        assert(a@.skip(i as int).drop_first() == a@.skip(i + 1));
        assert(b@.skip(i as int).drop_first() == b@.skip(i + 1));
        i = i + 1;
    }
    i < b.len()
}

/// The decimal digit for `d`.
pub open spec fn digit_char(d: nat) -> char {
    (('0' as u32) + d) as char
}

/// The decimal representation of `n`, without sign or leading zeros.
pub open spec fn decimal(n: nat) -> Seq<char>
    decreases n,
{
    if n < 10 {
        seq![digit_char(n)]
    } else {
        decimal(n / 10).push(digit_char(n % 10))
    }
}

/// The decimal representation of `n` (as `n.to_string()` writes it).
pub fn decimal_string(n: u64) -> (s: String)
    ensures
        s@ == decimal(n as nat),
{
    let mut rev: Vec<char> = Vec::new();
    let mut m = n;
    while m >= 10
        invariant
            decimal(n as nat) == decimal(m as nat) + rev@.reverse(),
        decreases m,
    {
        let d = (m % 10) as u8;
        let c = ((48u8 + d) as char);
        assert(c == digit_char((m % 10) as nat));
        let ghost old_rev = rev@;
        rev.push(c);
        assert(rev@.reverse() =~= seq![c] + old_rev.reverse());
        assert(decimal(m as nat) == decimal((m / 10) as nat).push(c));
        assert(decimal((m / 10) as nat).push(c) + old_rev.reverse() =~= decimal((m / 10) as nat) + (
        seq![c] + old_rev.reverse()));
        m = m / 10;
    }
    let first = ((48u8 + (m as u8)) as char);
    assert(first == digit_char(m as nat));
    let mut out: Vec<char> = Vec::new();
    out.push(first);
    let mut k = rev.len();
    while k > 0
        invariant
            k <= rev.len(),
            out@ == seq![first] + rev@.reverse().take((rev.len() - k) as int),
        decreases k,
    {
        k = k - 1;
        out.push(rev[k]);
        assert(rev@.reverse().take((rev.len() - k) as int) =~= rev@.reverse().take(
            (rev.len() - k - 1) as int,
        ).push(rev@[k as int]));
    }
    assert(rev@.reverse().take(rev.len() as int) =~= rev@.reverse());
    string_of(out.as_slice())
}

/// `line` without one trailing carriage return.
pub open spec fn strip_cr(line: Seq<char>) -> Seq<char> {
    if line.len() > 0 && line.last() == '\r' {
        line.drop_last()
    } else {
        line
    }
}

/// The lines of `s` after a partial line `cur`, as `str::lines` yields them:
/// split at `\n`, each terminated line losing one trailing `\r`, and a
/// final line ending being optional.
pub open spec fn lines_after(s: Seq<char>, cur: Seq<char>) -> Seq<Seq<char>>
    decreases s.len(),
{
    if s.len() == 0 {
        if cur.len() == 0 {
            seq![]
        } else {
            seq![cur]
        }
    } else if s[0] == '\n' {
        seq![strip_cr(cur)] + lines_after(s.drop_first(), seq![])
    } else {
        lines_after(s.drop_first(), cur.push(s[0]))
    }
}

/// The lines of `s` (see `lines_after`).
pub open spec fn lines_of(s: Seq<char>) -> Seq<Seq<char>> {
    lines_after(s, seq![])
}

/// `s` holds a `\r\n` somewhere.
pub open spec fn has_crlf(s: Seq<char>) -> bool {
    exists|i: int| 0 <= i < s.len() - 1 && s[i] == '\r' && #[trigger] s[i + 1] == '\n'
}

/// Each line of `lines` followed by `sep`.
pub open spec fn terminated(lines: Seq<Seq<char>>, sep: Seq<char>) -> Seq<char>
    decreases lines.len(),
{
    if lines.len() == 0 {
        seq![]
    } else {
        terminated(lines.drop_last(), sep) + lines.last() + sep
    }
}

/// `lines.join(sep)` followed by one more `sep`.
pub open spec fn joined_lines(lines: Seq<Seq<char>>, sep: Seq<char>) -> Seq<char> {
    if lines.len() == 0 {
        sep
    } else {
        terminated(lines, sep)
    }
}

/// The line separator a file uses: `\r\n` if it holds one, else `\n`.
pub open spec fn line_sep(crlf: bool) -> Seq<char> {
    if crlf {
        seq!['\r', '\n']
    } else {
        seq!['\n']
    }
}

/// A piece of a line with no line break in it just extends the partial
/// line.
proof fn lemma_lines_after_piece(l: Seq<char>, rest: Seq<char>, cur: Seq<char>)
    requires
        forall|k: int| 0 <= k < l.len() ==> l[k] != '\n',
    ensures
        lines_after(l + rest, cur) == lines_after(rest, cur + l),
    decreases l.len(),
{
    if l.len() == 0 {
        assert(l + rest =~= rest);
        assert(cur + l =~= cur);
    } else {
        let x = l + rest;
        assert(x[0] == l[0]);
        assert(x.drop_first() =~= l.drop_first() + rest);
        lemma_lines_after_piece(l.drop_first(), rest, cur.push(l[0]));
        assert(cur.push(l[0]) + l.drop_first() =~= cur + l);
    }
}

/// `terminated` read from the front: the first line and its separator,
/// then the rest.
proof fn lemma_terminated_front(ls: Seq<Seq<char>>, sep: Seq<char>)
    requires
        ls.len() > 0,
    ensures
        terminated(ls, sep) == ls[0] + sep + terminated(ls.drop_first(), sep),
    decreases ls.len(),
{
    if ls.len() > 1 {
        lemma_terminated_front(ls.drop_last(), sep);
        assert(ls.drop_last().drop_first() =~= ls.drop_first().drop_last());
        assert(ls.drop_first().last() == ls.last());
        assert(ls.drop_last()[0] == ls[0]);
        let c = terminated(ls.drop_first().drop_last(), sep);
        assert(terminated(ls.drop_first(), sep) == c + ls.last() + sep);
        assert(ls[0] + sep + c + ls.last() + sep =~= ls[0] + sep + (c + ls.last() + sep));
    } else {
        assert(ls.drop_last().len() == 0);
        assert(ls.drop_first().len() == 0);
        assert(ls.last() == ls[0]);
        assert(terminated(ls.drop_last(), sep) == Seq::<char>::empty());
        assert(terminated(ls.drop_first(), sep) == Seq::<char>::empty());
        assert(Seq::<char>::empty() + ls[0] + sep =~= ls[0] + sep + Seq::<char>::empty());
    }
}

/// A line as `lines_of` reads it back once it was written followed by
/// `line_sep(crlf)`: unchanged, except that after a bare `\n` one trailing
/// `\r` is taken for part of the line break.
pub open spec fn read_back(l: Seq<char>, crlf: bool) -> Seq<char> {
    if crlf {
        l
    } else {
        strip_cr(l)
    }
}

/// The lines of terminated lines, read from an empty partial line.
proof fn lemma_lines_of_terminated(ls: Seq<Seq<char>>, crlf: bool)
    requires
        forall|i: int, k: int| 0 <= i < ls.len() && 0 <= k < ls[i].len() ==> #[trigger] ls[i][k] != '\n',
    ensures
        lines_after(terminated(ls, line_sep(crlf)), seq![]) == ls.map_values(
            |l: Seq<char>| read_back(l, crlf),
        ),
    decreases ls.len(),
{
    let sep = line_sep(crlf);
    if ls.len() == 0 {
        assert(ls.map_values(|l: Seq<char>| read_back(l, crlf)) =~= Seq::<Seq<char>>::empty());
    } else {
        let l0 = ls[0];
        let tail = ls.drop_first();
        assert forall|i: int, k: int| 0 <= i < tail.len() && 0 <= k < tail[i].len() implies #[trigger] tail[i][k] != '\n' by {
            assert(tail[i] == ls[i + 1]);
        }
        lemma_lines_of_terminated(tail, crlf);
        lemma_terminated_front(ls, sep);
        let t = terminated(tail, sep);
        assert(l0 + sep + t =~= l0 + (sep + t));
        assert forall|k: int| 0 <= k < l0.len() implies l0[k] != '\n' by {
            assert(ls[0][k] != '\n');
        }
        lemma_lines_after_piece(l0, sep + t, seq![]);
        assert(Seq::<char>::empty() + l0 =~= l0);
        let nl = seq!['\n'] + t;
        assert(nl[0] == '\n');
        assert(nl.drop_first() =~= t);
        if crlf {
            let x = sep + t;
            assert(x[0] == '\r');
            assert(x.drop_first() =~= nl);
            assert(lines_after(x, l0) == lines_after(nl, l0.push('\r')));
            assert(strip_cr(l0.push('\r')) =~= l0);
        } else {
            assert(sep + t =~= nl);
        }
        assert(seq![read_back(l0, crlf)] + tail.map_values(|l: Seq<char>| read_back(l, crlf))
            =~= ls.map_values(|l: Seq<char>| read_back(l, crlf)));
    }
}

/// Lines joined by `join_lines` split back, with `split_lines`, into the
/// same lines as `read_back` reads them, as long as there is at least one
/// line and none holds a `\n`.
pub proof fn lemma_lines_read_back(ls: Seq<Seq<char>>, crlf: bool)
    requires
        ls.len() > 0,
        forall|i: int, k: int| 0 <= i < ls.len() && 0 <= k < ls[i].len() ==> #[trigger] ls[i][k] != '\n',
    ensures
        lines_of(joined_lines(ls, line_sep(crlf))) == ls.map_values(
            |l: Seq<char>| read_back(l, crlf),
        ),
{
    lemma_lines_of_terminated(ls, crlf);
}

/// Lines joined by `join_lines` split back into the same lines with
/// `split_lines`, as long as there is at least one line, none holds a `\n`
/// and, when they are joined by a bare `\n`, none ends with `\r`.
pub proof fn law_lines_roundtrip(ls: Seq<Seq<char>>, crlf: bool)
    requires
        ls.len() > 0,
        forall|i: int, k: int| 0 <= i < ls.len() && 0 <= k < ls[i].len() ==> #[trigger] ls[i][k] != '\n',
        !crlf ==> forall|i: int| 0 <= i < ls.len() && #[trigger] ls[i].len() > 0 ==> ls[i].last() != '\r',
    ensures
        lines_of(joined_lines(ls, line_sep(crlf))) == ls,
{
    lemma_lines_of_terminated(ls, crlf);
    assert forall|i: int| 0 <= i < ls.len() implies read_back(ls[i], crlf) == ls[i] by {
        if !crlf && ls[i].len() > 0 {
            assert(ls[i].last() != '\r');
        }
    }
    assert(ls.map_values(|l: Seq<char>| read_back(l, crlf)) =~= ls);
}

/// A line holds no `\n`.
pub open spec fn no_newline(l: Seq<char>) -> bool {
    forall|k: int| 0 <= k < l.len() ==> l[k] != '\n'
}

/// A line does not end with `\r`.
pub open spec fn no_trailing_cr(l: Seq<char>) -> bool {
    l.len() == 0 || l.last() != '\r'
}

/// The lines read from `s` after the partial line `cur` hold no `\n`.
proof fn lemma_lines_after_no_newline(s: Seq<char>, cur: Seq<char>)
    requires
        no_newline(cur),
    ensures
        forall|i: int| 0 <= i < lines_after(s, cur).len() ==> no_newline(#[trigger] lines_after(s, cur)[i]),
    decreases s.len(),
{
    if s.len() == 0 {
        if cur.len() > 0 {
            assert(lines_after(s, cur) == seq![cur]);
        }
    } else if s[0] == '\n' {
        lemma_lines_after_no_newline(s.drop_first(), seq![]);
        let rest = lines_after(s.drop_first(), seq![]);
        let first = strip_cr(cur);
        assert(no_newline(first)) by {
            assert forall|k: int| 0 <= k < first.len() implies first[k] != '\n' by {
                assert(first[k] == cur[k]);
            }
        }
        assert(lines_after(s, cur) == seq![first] + rest);
        assert forall|i: int| 0 <= i < lines_after(s, cur).len() implies no_newline(#[trigger] lines_after(s, cur)[i]) by {
            if i > 0 {
                assert(lines_after(s, cur)[i] == rest[i - 1]);
            } else {
                assert(lines_after(s, cur)[0] == first);
            }
        }
    } else {
        let c2 = cur.push(s[0]);
        assert forall|k: int| 0 <= k < c2.len() implies c2[k] != '\n' by {
            if k < cur.len() {
                assert(c2[k] == cur[k]);
            }
        }
        lemma_lines_after_no_newline(s.drop_first(), c2);
        assert(lines_after(s, cur) == lines_after(s.drop_first(), c2));
    }
}

/// The lines of `s` hold no `\n`.
pub proof fn lemma_lines_no_newline(s: Seq<char>)
    ensures
        forall|i: int| 0 <= i < lines_of(s).len() ==> no_newline(#[trigger] lines_of(s)[i]),
{
    lemma_lines_after_no_newline(s, seq![]);
}

/// A text without `\r\n` that does not end in `\r` has no line ending in
/// `\r`, read after a partial line `cur`.
proof fn lemma_lines_after_no_cr(s: Seq<char>, cur: Seq<char>)
    requires
        !has_crlf(cur + s),
        no_trailing_cr(cur + s),
    ensures
        forall|i: int| 0 <= i < lines_after(s, cur).len() ==> no_trailing_cr(#[trigger] lines_after(s, cur)[i]),
    decreases s.len(),
{
    let x = cur + s;
    if s.len() == 0 {
        assert(x =~= cur);
        if cur.len() > 0 {
            assert(lines_after(s, cur) == seq![cur]);
        }
    } else if s[0] == '\n' {
        if cur.len() > 0 && cur.last() == '\r' {
            let k = cur.len() - 1;
            assert(x[k] == '\r' && x[k + 1] == '\n');
            assert(has_crlf(x));
        }
        let t = s.drop_first();
        assert forall|i: int| 0 <= i < t.len() - 1 && t[i] == '\r' implies #[trigger] t[i + 1] != '\n' by {
            let j = cur.len() + 1 + i;
            assert(x[j] == t[i] && x[j + 1] == t[i + 1]);
        }
        assert(Seq::<char>::empty() + t =~= t);
        if t.len() > 0 {
            assert(t.last() == x.last());
        }
        lemma_lines_after_no_cr(t, seq![]);
        let rest = lines_after(t, seq![]);
        assert(strip_cr(cur) == cur);
        assert(lines_after(s, cur) == seq![cur] + rest);
        assert forall|i: int| 0 <= i < lines_after(s, cur).len() implies no_trailing_cr(#[trigger] lines_after(s, cur)[i]) by {
            if i > 0 {
                assert(lines_after(s, cur)[i] == rest[i - 1]);
            } else {
                assert(lines_after(s, cur)[0] == cur);
            }
        }
    } else {
        assert(cur.push(s[0]) + s.drop_first() =~= x);
        lemma_lines_after_no_cr(s.drop_first(), cur.push(s[0]));
        assert(lines_after(s, cur) == lines_after(s.drop_first(), cur.push(s[0])));
    }
}

/// A text without `\r\n` that does not end in `\r` has no line ending in
/// `\r`.
pub proof fn lemma_lines_no_cr(s: Seq<char>)
    requires
        !has_crlf(s),
        no_trailing_cr(s),
    ensures
        forall|i: int| 0 <= i < lines_of(s).len() ==> no_trailing_cr(#[trigger] lines_of(s)[i]),
{
    assert(Seq::<char>::empty() + s =~= s);
    lemma_lines_after_no_cr(s, seq![]);
}

/// Splits `text` into its lines (see `lines_of`) and says whether it holds
/// a `\r\n`.
pub fn split_lines(text: &[char]) -> (r: (Vec<Vec<char>>, bool))
    ensures
        views(r.0@) == lines_of(text@),
        r.1 == has_crlf(text@),
{
    let mut out: Vec<Vec<char>> = Vec::new();
    let mut cur: Vec<char> = Vec::new();
    let mut crlf = false;
    assert(text@.skip(0) == text@);
    assert(views(out@) =~= Seq::<Seq<char>>::empty());
    for i in 0..text.len()
        invariant
            lines_of(text@) == views(out@) + lines_after(
                text@.skip(i as int),
                cur@,
            ),
            crlf == exists|k: int| 0 <= k < i - 1 && text@[k] == '\r' && #[trigger] text@[k + 1] == '\n',
    {
        let ghost rest = text@.skip(i as int);
        assert(rest.drop_first() == text@.skip(i + 1));
        let c = text[i];
        if c == '\n' {
            if i > 0 && text[i - 1] == '\r' {
                crlf = true;
            }
            let ghost old_out = views(out@);
            let ghost old_cur = cur@;
            let mut line = cur;
            if line.len() > 0 && line[line.len() - 1] == '\r' {
                line.pop();
            }
            assert(line@ == strip_cr(cur@));
            out.push(line);
            cur = Vec::new();
            assert(views(out@) =~= old_out.push(strip_cr(old_cur)));
            assert(old_out + (seq![strip_cr(old_cur)] + lines_after(rest.drop_first(), seq![]))
                =~= old_out.push(strip_cr(old_cur)) + lines_after(rest.drop_first(), cur@));
        } else {
            cur.push(c);
        }
        proof {
            if i > 0 && text@[i - 1] == '\r' && c == '\n' {
                assert(text@[(i - 1) + 1] == '\n');
            }
        }
    }
    let ghost before = views(out@);
    if cur.len() > 0 {
        let ghost last = cur@;
        out.push(cur);
        assert(views(out@) =~= before + seq![last]);
    } else {
        assert(before + Seq::<Seq<char>>::empty() =~= before);
    }
    (out, crlf)
}

/// `lines` joined by the file's separator, with one more at the end.
pub fn join_lines(lines: &Vec<Vec<char>>, crlf: bool) -> (r: String)
    ensures
        r@ == joined_lines(views(lines@), line_sep(crlf)),
{
    let mut sep: Vec<char> = Vec::new();
    if crlf {
        sep.push('\r');
    }
    sep.push('\n');
    assert(sep@ =~= line_sep(crlf));
    let ghost ls = views(lines@);
    let mut out = String::new();
    for i in 0..lines.len()
        invariant
            sep@ == line_sep(crlf),
            ls == views(lines@),
            out@ == terminated(ls.take(i as int), sep@),
    {
        push_chars(&mut out, lines[i].as_slice());
        push_chars(&mut out, sep.as_slice());
        assert(ls.take(i + 1).drop_last() =~= ls.take(i as int));
    }
    assert(ls.take(lines.len() as int) =~= ls);
    if lines.len() == 0 {
        push_chars(&mut out, sep.as_slice());
    }
    out
}

/// `s` is in strictly increasing `lex_lt` order (so it holds no repeats).
pub open spec fn strictly_sorted(s: Seq<Seq<char>>) -> bool {
    forall|i: int, j: int| 0 <= i < j < s.len() ==> lex_lt(#[trigger] s[i], #[trigger] s[j])
}

/// Puts `x` into the strictly sorted `v`, unless it is there already.
pub fn insert_sorted_unique(v: &mut Vec<Vec<char>>, x: Vec<char>)
    requires
        strictly_sorted(views(old(v)@)),
    ensures
        strictly_sorted(views(final(v)@)),
        forall|y: Seq<char>|
            #![trigger views(final(v)@).contains(y)]
            views(final(v)@).contains(y) <==> (views(old(v)@).contains(y) || y == x@),
{
    let ghost s = views(v@);
    let mut p: usize = 0;
    while p < v.len() && lex_less(v[p].as_slice(), x.as_slice())
        invariant
            p <= v.len(),
            s == views(v@),
            forall|k: int| 0 <= k < p ==> lex_lt(#[trigger] s[k], x@),
        decreases v.len() - p,
    {
        p = p + 1;
    }
    if p < v.len() && chars_eq(v[p].as_slice(), x.as_slice()) {
        assert(s[p as int] == x@);
        assert forall|y: Seq<char>| s.contains(y) <==> (s.contains(y) || y == x@) by {
            if y == x@ {
                assert(s[p as int] == y);
            }
        }
        return;
    }
    proof {
        if p < s.len() {
            lemma_lex_total(s[p as int], x@);
        }
        assert forall|k: int| p <= k < s.len() implies lex_lt(x@, #[trigger] s[k]) by {
            if k > p {
                lemma_lex_transitive(x@, s[p as int], s[k]);
            }
        }
    }
    let ghost xv = x@;
    v.insert(p, x);
    let ghost t = views(v@);
    assert(t =~= s.insert(p as int, xv));
    assert forall|i: int, j: int| 0 <= i < j < t.len() implies lex_lt(#[trigger] t[i], #[trigger] t[j]) by {
        if j < p {
        } else if j == p {
        } else if i < p {
            lemma_lex_transitive(t[i], xv, t[j]);
        } else if i == p {
        } else {
        }
    }
    assert forall|y: Seq<char>| #[trigger] t.contains(y) <==> (s.contains(y) || y == xv) by {
        if t.contains(y) {
            let k = choose|k: int| 0 <= k < t.len() && t[k] == y;
            if k < p {
                assert(s[k] == y);
            } else if k > p {
                assert(s[k - 1] == y);
            }
        }
        if s.contains(y) {
            let k = choose|k: int| 0 <= k < s.len() && s[k] == y;
            if k < p {
                assert(t[k] == y);
            } else {
                assert(t[k + 1] == y);
            }
        }
        if y == xv {
            assert(t[p as int] == y);
        }
    }
}

} // verus!
