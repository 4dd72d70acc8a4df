//! The window of a built app: its splash page, the error page shown when
//! the PHP backend fails to start, and what each window event leads to.
//!
//! The window itself (`tao`/`wry`) and the event loop are the caller's
//! side; on each event it asks `splash_step` what to do.
use vstd::prelude::*;
use vstd::string::StringSliceAdditionalSpecFns;
use crate::text::{chars_of, has_prefix, push_char, push_chars, push_str};

verus! {

/// The HTML-escaped form of one character.
pub open spec fn escape_char(c: char) -> Seq<char> {
    if c == '&' {
        "&amp;"@
    } else if c == '<' {
        "&lt;"@
    } else if c == '>' {
        "&gt;"@
    } else if c == '"' {
        "&quot;"@
    } else {
        seq![c]
    }
}

/// `s` with `&`, `<`, `>` and `"` replaced by their HTML entities.
pub open spec fn escaped(s: Seq<char>) -> Seq<char>
    decreases s.len(),
{
    if s.len() == 0 {
        seq![]
    } else {
        escaped(s.drop_last()) + escape_char(s.last())
    }
}

/// Escapes `s` for use inside HTML text.
pub fn html_escape(s: &str) -> (r: String)
    ensures
        r@ == escaped(s@),
{
    let v = chars_of(s);
    let mut out = String::new();
    for i in 0..v.len()
        invariant
            v@ == s@,
            out@ == escaped(v@.take(i as int)),
    {
        let c = v[i];
        if c == '&' {
            push_str(&mut out, "&amp;");
        } else if c == '<' {
            push_str(&mut out, "&lt;");
        } else if c == '>' {
            push_str(&mut out, "&gt;");
        } else if c == '"' {
            push_str(&mut out, "&quot;");
        } else {
            push_char(&mut out, c);
            assert(seq![c] =~= Seq::<char>::empty().push(c));
        }
        assert(v@.take(i + 1).drop_last() =~= v@.take(i as int));
    }
    assert(v@.take(v.len() as int) =~= v@);
    out
}

/// A byte that RFC 3986 leaves unreserved.
pub open spec fn is_unreserved(b: u8) -> bool {
    ||| (0x41 <= b && b <= 0x5a)
    ||| (0x61 <= b && b <= 0x7a)
    ||| (0x30 <= b && b <= 0x39)
    ||| b == 0x2d
    ||| b == 0x5f
    ||| b == 0x2e
    ||| b == 0x7e
}

/// The upper-case hex digit for `d < 16`.
pub open spec fn upper_hex(d: nat) -> char {
    if d < 10 {
        (('0' as u32) + d) as char
    } else {
        (('A' as u32) + (d - 10)) as char
    }
}

/// One byte, percent-encoded unless it is unreserved.
pub open spec fn encode_byte(b: u8) -> Seq<char> {
    if is_unreserved(b) {
        seq![(b as u32) as char]
    } else {
        seq!['%', upper_hex((b / 16) as nat), upper_hex((b % 16) as nat)]
    }
}

/// The bytes `b`, percent-encoded.
pub open spec fn percent_encoded(b: Seq<u8>) -> Seq<char>
    decreases b.len(),
{
    if b.len() == 0 {
        seq![]
    } else {
        percent_encoded(b.drop_last()) + encode_byte(b.last())
    }
}

fn hex_upper_digit(d: u8) -> (c: char)
    requires
        d < 16,
    ensures
        c == upper_hex(d as nat),
{
    if d < 10 {
        (48u8 + d) as char
    } else {
        (55u8 + d) as char
    }
}

/// Percent-encodes the UTF-8 bytes of `s`, keeping only RFC 3986's
/// unreserved characters as they are; enough to carry arbitrary HTML in a
/// `data:` URL.
pub fn percent_encode(s: &str) -> (r: String)
    ensures
        r@ == percent_encoded(s.spec_bytes()),
{
    let bytes = s.as_bytes();
    let mut out = String::new();
    for i in 0..bytes.len()
        invariant
            bytes@ == s.spec_bytes(),
            out@ == percent_encoded(bytes@.take(i as int)),
    {
        let b = bytes[i];
        if (0x41 <= b && b <= 0x5a) || (0x61 <= b && b <= 0x7a) || (0x30 <= b && b <= 0x39) || b
            == 0x2d || b == 0x5f || b == 0x2e || b == 0x7e {
            push_char(&mut out, b as char);
            assert(encode_byte(b) =~= seq![b as char]);
        } else {
            push_char(&mut out, '%');
            push_char(&mut out, hex_upper_digit(b / 16));
            push_char(&mut out, hex_upper_digit(b % 16));
        }
        assert(bytes@.take(i + 1).drop_last() =~= bytes@.take(i as int));
        assert(percent_encoded(bytes@.take(i + 1)) == percent_encoded(bytes@.take(i as int))
            + encode_byte(b));
    }
    assert(bytes@.take(bytes.len() as int) =~= bytes@);
    out
}

/// A character HTML gives a meaning to outside text: `<`, `>` or `"`.
pub open spec fn is_markup(c: char) -> bool {
    c == '<' || c == '>' || c == '"'
}

/// Escaped text carries no `<`, `>` or `"`, so it can neither open a tag
/// nor close an attribute: whatever `s` holds stays text.
pub proof fn law_escaped_has_no_markup(s: Seq<char>)
    ensures
        forall|i: int| 0 <= i < escaped(s).len() ==> !is_markup(#[trigger] escaped(s)[i]),
    decreases s.len(),
{
    reveal_strlit("&amp;");
    reveal_strlit("&lt;");
    reveal_strlit("&gt;");
    reveal_strlit("&quot;");
    if s.len() > 0 {
        law_escaped_has_no_markup(s.drop_last());
        let a = escaped(s.drop_last());
        let b = escape_char(s.last());
        assert(forall|k: int| 0 <= k < b.len() ==> !is_markup(#[trigger] b[k]));
        assert forall|i: int| 0 <= i < escaped(s).len() implies !is_markup(#[trigger] escaped(s)[i]) by {
            if i < a.len() {
                assert(escaped(s)[i] == a[i]);
            } else {
                assert(escaped(s)[i] == b[i - a.len()]);
            }
        }
    }
}

/// A character that may stand in a `data:` URL as it is: RFC 3986's
/// unreserved characters and `%`.
pub open spec fn is_url_char(c: char) -> bool {
    ('A' <= c && c <= 'Z') || ('a' <= c && c <= 'z') || ('0' <= c && c <= '9') || c == '-' || c
        == '_' || c == '.' || c == '~' || c == '%'
}

/// Percent-encoded text holds only unreserved characters and `%`, so any
/// bytes, HTML included, can travel inside a `data:` URL.
pub proof fn law_percent_encoded_is_url_safe(b: Seq<u8>)
    ensures
        forall|i: int| 0 <= i < percent_encoded(b).len() ==> is_url_char(#[trigger] percent_encoded(b)[i]),
    decreases b.len(),
{
    if b.len() > 0 {
        law_percent_encoded_is_url_safe(b.drop_last());
        let x = percent_encoded(b.drop_last());
        let y = encode_byte(b.last());
        let v = b.last();
        assert(v / 16 < 16 && v % 16 < 16);
        assert(forall|k: int| 0 <= k < y.len() ==> is_url_char(#[trigger] y[k]));
        assert forall|i: int| 0 <= i < percent_encoded(b).len() implies is_url_char(#[trigger] percent_encoded(b)[i]) by {
            if i < x.len() {
                assert(percent_encoded(b)[i] == x[i]);
            } else {
                assert(percent_encoded(b)[i] == y[i - x.len()]);
            }
        }
    }
}

/// Escaping a concatenation escapes each part.
proof fn lemma_escaped_concat(a: Seq<char>, b: Seq<char>)
    ensures
        escaped(a + b) == escaped(a) + escaped(b),
    decreases b.len(),
{
    if b.len() == 0 {
        assert(a + b =~= a);
        assert(escaped(a) + escaped(b) =~= escaped(a));
    } else {
        lemma_escaped_concat(a, b.drop_last());
        assert((a + b).drop_last() =~= a + b.drop_last());
        assert((a + b).last() == b.last());
        assert(escaped(a) + escaped(b.drop_last()) + escape_char(b.last()) =~= escaped(a) + (
        escaped(b.drop_last()) + escape_char(b.last())));
    }
}

/// `&amp;`
pub open spec fn amp_entity() -> Seq<char> {
    seq!['&', 'a', 'm', 'p', ';']
}

/// `&lt;`
pub open spec fn lt_entity() -> Seq<char> {
    seq!['&', 'l', 't', ';']
}

/// `&gt;`
pub open spec fn gt_entity() -> Seq<char> {
    seq!['&', 'g', 't', ';']
}

/// `&quot;`
pub open spec fn quot_entity() -> Seq<char> {
    seq!['&', 'q', 'u', 'o', 't', ';']
}

/// HTML text read back, left to right: `&amp;`, `&lt;`, `&gt;` and
/// `&quot;` become the character they stand for, anything else stays.
pub open spec fn unescaped(t: Seq<char>) -> Seq<char>
    decreases t.len(),
{
    if t.len() == 0 {
        seq![]
    } else if has_prefix(t, amp_entity()) {
        seq!['&'] + unescaped(t.skip(5))
    } else if has_prefix(t, lt_entity()) {
        seq!['<'] + unescaped(t.skip(4))
    } else if has_prefix(t, gt_entity()) {
        seq!['>'] + unescaped(t.skip(4))
    } else if has_prefix(t, quot_entity()) {
        seq!['"'] + unescaped(t.skip(6))
    } else {
        seq![t[0]] + unescaped(t.drop_first())
    }
}

/// Reading back one escaped character followed by more text.
proof fn lemma_unescape_step(c: char, x: Seq<char>)
    ensures
        unescaped(escape_char(c) + x) == seq![c] + unescaped(x),
{
    reveal_strlit("&amp;");
    reveal_strlit("&lt;");
    reveal_strlit("&gt;");
    reveal_strlit("&quot;");
    let t = escape_char(c) + x;
    let e = escape_char(c);
    assert(t.take(e.len() as int) =~= e);
    assert(t.skip(e.len() as int) =~= x);
    if c == '&' {
        assert(e =~= amp_entity());
    } else if c == '<' {
        assert(e =~= lt_entity());
        assert(t[1] == 'l');
        if t.len() >= 5 {
            assert(t.take(5)[1] == t[1]);
        }
    } else if c == '>' {
        assert(e =~= gt_entity());
        assert(t[1] == 'g');
        if t.len() >= 5 {
            assert(t.take(5)[1] == t[1]);
        }
        assert(t.take(4)[1] == t[1]);
    } else if c == '"' {
        assert(e =~= quot_entity());
        assert(t[1] == 'q');
        if t.len() >= 5 {
            assert(t.take(5)[1] == t[1]);
        }
        assert(t.take(4)[1] == t[1]);
    } else {
        assert(e =~= seq![c]);
        assert(t[0] == c);
        if t.len() >= 4 {
            assert(t.take(4)[0] == t[0]);
        }
        if t.len() >= 5 {
            assert(t.take(5)[0] == t[0]);
        }
        if t.len() >= 6 {
            assert(t.take(6)[0] == t[0]);
        }
        assert(t.drop_first() =~= x);
    }
}

/// Unescaping `html_escape`'s output gives the text back: escaping loses
/// nothing and never escapes twice.
pub proof fn law_unescape_escaped(s: Seq<char>)
    ensures
        unescaped(escaped(s)) == s,
    decreases s.len(),
{
    if s.len() > 0 {
        let rest = s.drop_first();
        assert(seq![s[0]] + rest =~= s);
        lemma_escaped_concat(seq![s[0]], rest);
        assert(seq![s[0]].drop_last() =~= Seq::<char>::empty());
        assert(seq![s[0]].last() == s[0]);
        assert(escaped(Seq::<char>::empty()) == Seq::<char>::empty());
        assert(escaped(seq![s[0]]) =~= escape_char(s[0]));
        lemma_unescape_step(s[0], escaped(rest));
        law_unescape_escaped(rest);
    }
}

/// `t` with every occurrence of the non-empty `pat` replaced by `rep`,
/// found left to right without overlapping, as `str::replace` does.
pub open spec fn replaced(t: Seq<char>, pat: Seq<char>, rep: Seq<char>) -> Seq<char>
    decreases t.len(),
{
    if t.len() == 0 {
        seq![]
    } else if pat.len() > 0 && has_prefix(t, pat) {
        rep + replaced(t.skip(pat.len() as int), pat, rep)
    } else {
        seq![t[0]] + replaced(t.drop_first(), pat, rep)
    }
}

/// The entity undone by the `k`-th replacement: `&lt;`, `&gt;`, `&quot;`,
/// then `&amp;`.
spec fn undo_pattern(k: nat) -> Seq<char> {
    if k == 0 {
        lt_entity()
    } else if k == 1 {
        gt_entity()
    } else if k == 2 {
        quot_entity()
    } else {
        amp_entity()
    }
}

/// The character the `k`-th replacement puts back.
spec fn undo_char(k: nat) -> char {
    if k == 0 {
        '<'
    } else if k == 1 {
        '>'
    } else if k == 2 {
        '"'
    } else {
        '&'
    }
}

/// The escaped form of `c` once the first `k` replacements are done.
spec fn partly_escaped_char(c: char, k: nat) -> Seq<char> {
    if (c == '<' && k >= 1) || (c == '>' && k >= 2) || (c == '"' && k >= 3) || k >= 4 {
        seq![c]
    } else {
        escape_char(c)
    }
}

/// `s` escaped, once the first `k` replacements are done.
spec fn partly_escaped(s: Seq<char>, k: nat) -> Seq<char>
    decreases s.len(),
{
    if s.len() == 0 {
        seq![]
    } else {
        partly_escaped_char(s[0], k) + partly_escaped(s.drop_first(), k)
    }
}

proof fn lemma_escaped_front(s: Seq<char>)
    ensures
        escaped(s) == partly_escaped(s, 0),
    decreases s.len(),
{
    if s.len() > 0 {
        let rest = s.drop_first();
        assert(seq![s[0]] + rest =~= s);
        lemma_escaped_concat(seq![s[0]], rest);
        assert(seq![s[0]].drop_last() =~= Seq::<char>::empty());
        assert(seq![s[0]].last() == s[0]);
        assert(escaped(Seq::<char>::empty()) == Seq::<char>::empty());
        assert(escaped(seq![s[0]]) =~= escape_char(s[0]));
        lemma_escaped_front(rest);
    }
}

/// Text without `&` passes a replacement of an entity untouched.
proof fn lemma_replaced_no_amp(w: Seq<char>, x: Seq<char>, pat: Seq<char>, rep: Seq<char>)
    requires
        pat.len() > 0,
        pat[0] == '&',
        forall|i: int| 0 <= i < w.len() ==> w[i] != '&',
    ensures
        replaced(w + x, pat, rep) == w + replaced(x, pat, rep),
    decreases w.len(),
{
    if w.len() == 0 {
        assert(w + x =~= x);
        assert(w + replaced(x, pat, rep) =~= replaced(x, pat, rep));
    } else {
        let t = w + x;
        assert(t[0] == w[0]);
        if pat.len() <= t.len() {
            assert(t.take(pat.len() as int)[0] == t[0]);
        }
        assert(t.drop_first() =~= w.drop_first() + x);
        lemma_replaced_no_amp(w.drop_first(), x, pat, rep);
        assert(seq![w[0]] + (w.drop_first() + replaced(x, pat, rep)) =~= w + replaced(x, pat, rep));
    }
}

/// One replacement step on one escaped character followed by more text.
proof fn lemma_undo_step(c: char, x: Seq<char>, k: nat)
    requires
        k < 4,
    ensures
        replaced(partly_escaped_char(c, k) + x, undo_pattern(k), seq![undo_char(k)])
            == partly_escaped_char(c, k + 1) + replaced(x, undo_pattern(k), seq![undo_char(k)]),
{
    reveal_strlit("&amp;");
    reveal_strlit("&lt;");
    reveal_strlit("&gt;");
    reveal_strlit("&quot;");
    let e = partly_escaped_char(c, k);
    let p = undo_pattern(k);
    let r = seq![undo_char(k)];
    let t = e + x;
    assert(p[0] == '&');
    if e == p {
        assert(t.take(p.len() as int) =~= p);
        assert(t.skip(p.len() as int) =~= x);
        assert(partly_escaped_char(c, k + 1) == r);
    } else if e.len() == 1 && e[0] != '&' {
        lemma_replaced_no_amp(e, x, p, r);
        assert(partly_escaped_char(c, k + 1) == e);
    } else {
        if c == '&' {
            assert(e =~= amp_entity());
        } else if c == '<' {
            assert(e =~= lt_entity());
        } else if c == '>' {
            assert(e =~= gt_entity());
        } else if c == '"' {
            assert(e =~= quot_entity());
        } else {
            assert(e =~= seq![c]);
        }
        assert(e[0] == '&' && e.len() >= 4 && e[1] != p[1]);
        assert(p.len() >= 4);
        if p.len() <= t.len() {
            assert(t.take(p.len() as int)[1] == e[1]);
        }
        let w = e.drop_first();
        assert(forall|i: int| 0 <= i < w.len() ==> w[i] != '&');
        assert(t.drop_first() =~= w + x);
        lemma_replaced_no_amp(w, x, p, r);
        assert(seq![e[0]] + (w + replaced(x, p, r)) =~= e + replaced(x, p, r));
        assert(partly_escaped_char(c, k + 1) == e);
    }
}

/// One replacement on the whole text takes it one stage further.
proof fn lemma_undo_stage(s: Seq<char>, k: nat)
    requires
        k < 4,
    ensures
        replaced(partly_escaped(s, k), undo_pattern(k), seq![undo_char(k)]) == partly_escaped(
            s,
            k + 1,
        ),
    decreases s.len(),
{
    if s.len() > 0 {
        lemma_undo_step(s[0], partly_escaped(s.drop_first(), k), k);
        lemma_undo_stage(s.drop_first(), k);
    }
}

/// After the four replacements the text is back.
proof fn lemma_fully_undone(s: Seq<char>)
    ensures
        partly_escaped(s, 4) == s,
    decreases s.len(),
{
    if s.len() > 0 {
        lemma_fully_undone(s.drop_first());
        assert(seq![s[0]] + s.drop_first() =~= s);
    }
}

/// Replacing `&lt;`, `&gt;` and `&quot;` and then `&amp;` in
/// `html_escape`'s output, as `str::replace` would, gives the text back:
/// nothing is escaped twice.
pub proof fn law_replacing_entities_restores(s: Seq<char>)
    ensures
        replaced(
            replaced(
                replaced(replaced(escaped(s), lt_entity(), seq!['<']), gt_entity(), seq!['>']),
                quot_entity(),
                seq!['"'],
            ),
            amp_entity(),
            seq!['&'],
        ) == s,
{
    lemma_escaped_front(s);
    lemma_undo_stage(s, 0);
    lemma_undo_stage(s, 1);
    lemma_undo_stage(s, 2);
    lemma_undo_stage(s, 3);
    lemma_fully_undone(s);
}

/// The value of an upper-case hex digit.
pub open spec fn upper_hex_value(c: char) -> Option<nat> {
    let u = c as u32;
    if 48 <= u && u <= 57 {
        Some((u - 48) as nat)
    } else if 65 <= u && u <= 70 {
        Some((u - 55) as nat)
    } else {
        None
    }
}

/// Percent-encoded text read back, left to right: `%` and two upper-case
/// hex digits stand for one byte, any other character for its own code.
pub open spec fn percent_decoded(t: Seq<char>) -> Seq<u8>
    decreases t.len(),
{
    if t.len() == 0 {
        seq![]
    } else if t[0] == '%' && t.len() >= 3 && upper_hex_value(t[1]) is Some && upper_hex_value(t[2]) is Some {
        seq![(upper_hex_value(t[1]).unwrap() * 16 + upper_hex_value(t[2]).unwrap()) as u8]
            + percent_decoded(t.skip(3))
    } else {
        seq![(t[0] as u32) as u8] + percent_decoded(t.drop_first())
    }
}

/// Encoding a concatenation encodes each part.
proof fn lemma_percent_encoded_concat(a: Seq<u8>, b: Seq<u8>)
    ensures
        percent_encoded(a + b) == percent_encoded(a) + percent_encoded(b),
    decreases b.len(),
{
    if b.len() == 0 {
        assert(a + b =~= a);
        assert(percent_encoded(a) + percent_encoded(b) =~= percent_encoded(a));
    } else {
        lemma_percent_encoded_concat(a, b.drop_last());
        assert((a + b).drop_last() =~= a + b.drop_last());
        assert((a + b).last() == b.last());
        assert(percent_encoded(a) + percent_encoded(b.drop_last()) + encode_byte(b.last())
            =~= percent_encoded(a) + (percent_encoded(b.drop_last()) + encode_byte(b.last())));
    }
}

/// An upper-case hex digit reads back as its value.
proof fn lemma_upper_hex_value(d: nat)
    requires
        d < 16,
    ensures
        upper_hex_value(upper_hex(d)) == Some(d),
{
    if d < 10 {
        assert((((48 + d) as u32) as char) as u32 == 48 + d);
    } else {
        assert((((55 + d) as u32) as char) as u32 == 55 + d);
    }
}

/// Reading back one encoded byte followed by more text.
proof fn lemma_percent_step(v: u8, x: Seq<char>)
    ensures
        percent_decoded(encode_byte(v) + x) == seq![v] + percent_decoded(x),
{
    let t = encode_byte(v) + x;
    if is_unreserved(v) {
        assert(t[0] == (v as u32) as char);
        assert(((v as u32) as char) as u32 == v as u32);
        assert(t.drop_first() =~= x);
    } else {
        let h: nat = (v / 16) as nat;
        let l: nat = (v % 16) as nat;
        lemma_upper_hex_value(h);
        lemma_upper_hex_value(l);
        assert(t[0] == '%' && t[1] == upper_hex(h) && t[2] == upper_hex(l));
        assert(h * 16 + l == v) by (nonlinear_arith)
            requires
                h == v / 16,
                l == v % 16,
        ;
        assert(t.skip(3) =~= x);
    }
}

/// Percent-decoding `percent_encode`'s output gives back exactly the bytes
/// that were encoded.
pub proof fn law_percent_decode_encoded(b: Seq<u8>)
    ensures
        percent_decoded(percent_encoded(b)) == b,
    decreases b.len(),
{
    if b.len() > 0 {
        let rest = b.drop_first();
        assert(seq![b[0]] + rest =~= b);
        lemma_percent_encoded_concat(seq![b[0]], rest);
        assert(seq![b[0]].drop_last() =~= Seq::<u8>::empty());
        assert(seq![b[0]].last() == b[0]);
        assert(percent_encoded(Seq::<u8>::empty()) == Seq::<char>::empty());
        assert(percent_encoded(seq![b[0]]) =~= encode_byte(b[0]));
        lemma_percent_step(b[0], percent_encoded(rest));
        law_percent_decode_encoded(rest);
    }
}

/// The splash page up to the app's title.
pub open spec fn splash_head() -> Seq<char> {
    r#"<!doctype html>
<html><head><meta charset="utf-8"><style>
  html, body {
    margin: 0; height: 100%; background: #14161a; color: #e8e8ea;
    display: flex; align-items: center; justify-content: center;
    font-family: -apple-system, "Segoe UI", sans-serif;
  }
  .wrap { text-align: center; }
  .spinner {
    width: 36px; height: 36px; margin: 0 auto 16px;
    border: 3px solid #333640; border-top-color: #6fa8ff;
    border-radius: 50%; animation: spin 0.8s linear infinite;
  }
  @keyframes spin { to { transform: rotate(360deg); } }
  .title { font-size: 15px; opacity: 0.85; }
</style></head>
<body><div class="wrap">
  <div class="spinner"></div>
  <div class="title">Starting "#@
}

/// The splash page after the app's title.
pub open spec fn splash_tail() -> Seq<char> {
    r#"...</div>
</div></body></html>"#@
}

/// The splash page shown the instant the window opens: dark background,
/// the app's title, a CSS-only spinner.
pub fn splash_html(title: &str) -> (r: String)
    ensures
        r@ == splash_head() + escaped(title@) + splash_tail(),
{
    let mut out = String::new();
    push_str(&mut out, r#"<!doctype html>
<html><head><meta charset="utf-8"><style>
  html, body {
    margin: 0; height: 100%; background: #14161a; color: #e8e8ea;
    display: flex; align-items: center; justify-content: center;
    font-family: -apple-system, "Segoe UI", sans-serif;
  }
  .wrap { text-align: center; }
  .spinner {
    width: 36px; height: 36px; margin: 0 auto 16px;
    border: 3px solid #333640; border-top-color: #6fa8ff;
    border-radius: 50%; animation: spin 0.8s linear infinite;
  }
  @keyframes spin { to { transform: rotate(360deg); } }
  .title { font-size: 15px; opacity: 0.85; }
</style></head>
<body><div class="wrap">
  <div class="spinner"></div>
  <div class="title">Starting "#);
    let t = html_escape(title);
    push_str(&mut out, t.as_str());
    push_str(&mut out, r#"...</div>
</div></body></html>"#);
    out
}

/// The error page up to the message.
pub open spec fn error_head() -> Seq<char> {
    r#"<!doctype html>
<html><head><meta charset="utf-8"><style>
  html, body {
    margin: 0; height: 100%; background: #1a1414; color: #f0d0d0;
    display: flex; align-items: center; justify-content: center;
    font-family: -apple-system, "Segoe UI", sans-serif;
  }
  .wrap { max-width: 480px; text-align: center; padding: 24px; }
  .heading { font-size: 15px; margin-bottom: 8px; color: #ff8a8a; }
  .detail { font-size: 13px; opacity: 0.8; font-family: monospace; white-space: pre-wrap; }
</style></head>
<body><div class="wrap">
  <div class="heading">Couldn't start the app</div>
  <div class="detail">"#@
}

/// The error page after the message.
pub open spec fn error_tail() -> Seq<char> {
    r#"</div>
</div></body></html>"#@
}

/// The error page for a backend that failed to start, as HTML.
pub fn error_html(message: &str) -> (r: String)
    ensures
        r@ == error_head() + escaped(message@) + error_tail(),
{
    let mut out = String::new();
    push_str(&mut out, r#"<!doctype html>
<html><head><meta charset="utf-8"><style>
  html, body {
    margin: 0; height: 100%; background: #1a1414; color: #f0d0d0;
    display: flex; align-items: center; justify-content: center;
    font-family: -apple-system, "Segoe UI", sans-serif;
  }
  .wrap { max-width: 480px; text-align: center; padding: 24px; }
  .heading { font-size: 15px; margin-bottom: 8px; color: #ff8a8a; }
  .detail { font-size: 13px; opacity: 0.8; font-family: monospace; white-space: pre-wrap; }
</style></head>
<body><div class="wrap">
  <div class="heading">Couldn't start the app</div>
  <div class="detail">"#);
    let m = html_escape(message);
    push_str(&mut out, m.as_str());
    push_str(&mut out, r#"</div>
</div></body></html>"#);
    out
}

/// The error page as a `data:` URL, the one way a `wry` web view already
/// built can be shown arbitrary HTML.
pub fn error_data_url(message: &str) -> (r: String)
    ensures
        r@ == "data:text/html,"@ + percent_encoded(vstd::utf8::encode_utf8(
            error_head() + escaped(message@) + error_tail(),
        )),
{
    let html = error_html(message);
    let mut out = String::new();
    push_str(&mut out, "data:text/html,");
    let enc = percent_encode(html.as_str());
    push_str(&mut out, enc.as_str());
    out
}

/// What the window of a built app is told while it runs.
pub enum SplashEvent {
    /// The backend started, and serves at this URL.
    BackendReady(String),
    /// The backend failed to start, for this reason.
    BackendFailed(String),
    /// The user asked to close the window.
    CloseRequested,
    /// Anything else.
    Other,
}

/// What the window does in answer to an event.
pub enum SplashAction {
    /// Navigate the web view to this URL.
    LoadUrl(String),
    /// Shut the backend down (when `run_on_exit`) and end the event loop.
    Exit { run_on_exit: bool },
    /// Keep waiting.
    Wait,
}

/// The window's state: whether the shutdown callback is still to be run.
pub struct SplashState {
    pub on_exit_pending: bool,
}

/// The state a window starts in.
pub fn splash_start() -> (s: SplashState)
    ensures
        s.on_exit_pending,
{
    SplashState { on_exit_pending: true }
}

/// Handles one event: navigate to the app once it is ready, to an error
/// page if it failed, and on close run the shutdown callback, which runs
/// at most once.
pub fn splash_step(state: &mut SplashState, event: SplashEvent) -> (a: SplashAction)
    ensures
        match event {
            SplashEvent::BackendReady(url) => a matches SplashAction::LoadUrl(u) && u@ == url@
                && final(state).on_exit_pending == old(state).on_exit_pending,
            SplashEvent::BackendFailed(msg) => a matches SplashAction::LoadUrl(u) && u@
                == "data:text/html,"@ + percent_encoded(
                vstd::utf8::encode_utf8(error_head() + escaped(msg@) + error_tail()),
            ) && final(state).on_exit_pending == old(state).on_exit_pending,
            SplashEvent::CloseRequested => a matches SplashAction::Exit { run_on_exit }
                && run_on_exit == old(state).on_exit_pending && !final(state).on_exit_pending,
            SplashEvent::Other => a matches SplashAction::Wait && final(state).on_exit_pending
                == old(state).on_exit_pending,
        },
{
    match event {
        SplashEvent::BackendReady(url) => SplashAction::LoadUrl(url),
        SplashEvent::BackendFailed(msg) => SplashAction::LoadUrl(error_data_url(msg.as_str())),
        SplashEvent::CloseRequested => {
            let run = state.on_exit_pending;
            state.on_exit_pending = false;
            SplashAction::Exit { run_on_exit: run }
        },
        SplashEvent::Other => SplashAction::Wait,
    }
}

/// Over a run of events, each `true` for a close request: how many times
/// the shutdown callback runs, starting with it `pending` or not.
pub open spec fn shutdown_runs(pending: bool, closes: Seq<bool>) -> nat
    decreases closes.len(),
{
    if closes.len() == 0 {
        0
    } else {
        (if closes[0] && pending {
            1nat
        } else {
            0nat
        }) + shutdown_runs(if closes[0] { false } else { pending }, closes.drop_first())
    }
}

/// The shutdown callback of a window runs exactly once if a close is ever
/// requested, and never otherwise, however the events interleave (each
/// step of `splash_step` moves `on_exit_pending` as `shutdown_runs` does).
pub proof fn law_shutdown_runs_once(closes: Seq<bool>)
    ensures
        shutdown_runs(true, closes) == if closes.contains(true) {
            1nat
        } else {
            0nat
        },
    decreases closes.len(),
{
    if closes.len() > 0 {
        if closes[0] {
            lemma_no_runs_when_done(closes.drop_first());
            assert(closes.contains(true)) by {
                assert(closes[0] == true);
            }
        } else {
            law_shutdown_runs_once(closes.drop_first());
            assert(closes.contains(true) == closes.drop_first().contains(true)) by {
                if closes.contains(true) {
                    let k = choose|k: int| 0 <= k < closes.len() && closes[k] == true;
                    assert(closes.drop_first()[k - 1] == true);
                }
                if closes.drop_first().contains(true) {
                    let k = choose|k: int| 0 <= k < closes.drop_first().len() && closes.drop_first()[k] == true;
                    assert(closes[k + 1] == true);
                }
            }
        }
    } else {
        assert(!closes.contains(true));
    }
}

/// Once run, the shutdown callback never runs again.
proof fn lemma_no_runs_when_done(closes: Seq<bool>)
    ensures
        shutdown_runs(false, closes) == 0,
    decreases closes.len(),
{
    if closes.len() > 0 {
        lemma_no_runs_when_done(closes.drop_first());
    }
}

} // verus!
