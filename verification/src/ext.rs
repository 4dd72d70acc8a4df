//! The `extension=` / `zend_extension=` lines of a PHP install's
//! `php.ini`: listing what is configured (and what is merely available in
//! `ext/`), enabling and disabling, without hand-editing the file.
//!
//! Everything here works on the file's text; reading it, writing it back
//! atomically and keeping the one-time `php.ini.orig` backup are the
//! caller's side.
use vstd::prelude::*;
use crate::error::LauncherError;
use vstd::string::StringSliceAdditionalSpecFns;
use crate::paths::{stem_and_extension, stem_ext};
use crate::text::{
    is_ws, lemma_trim_commutes, lemma_trim_end_blank, lemma_trim_end_concat, lemma_trim_end_last,
    lemma_trim_fixed, lemma_trim_start_first, trim_end, law_lines_roundtrip, lemma_lines_no_cr,
    lemma_lines_no_newline, lemma_lines_read_back, no_newline, no_trailing_cr, strip_cr,
    chars_eq, chars_of, views, insert_sorted_unique, strictly_sorted, ends_with_at, has_crlf, has_prefix, has_suffix, is_alnum, join_lines,
    joined_lines, line_sep, lines_of, lower, lower_chars, push_chars, push_str, skip_ws,
    split_lines, starts_with_at, string_of, sub_chars, trim, trim_bounds, trim_start,
};

verus! {

/// `php_`, the decoration PHP's Windows builds put before an extension name.
pub open spec fn php_lower() -> Seq<char> {
    seq!['p', 'h', 'p', '_']
}

/// `PHP_`, the same decoration in upper case.
pub open spec fn php_upper() -> Seq<char> {
    seq!['P', 'H', 'P', '_']
}

/// `value` without a leading `php_` (or `PHP_`).
pub open spec fn strip_php_prefix(v: Seq<char>) -> Seq<char> {
    if has_prefix(v, php_lower()) || has_prefix(v, php_upper()) {
        v.skip(4)
    } else {
        v
    }
}

/// `value` without the first of `.dll`, `.DLL`, `.so`, `.SO` that ends it.
pub open spec fn strip_library_suffix(v: Seq<char>) -> Seq<char> {
    if has_suffix(v, seq!['.', 'd', 'l', 'l']) || has_suffix(v, seq!['.', 'D', 'L', 'L']) {
        v.take(v.len() - 4)
    } else if has_suffix(v, seq!['.', 's', 'o']) || has_suffix(v, seq!['.', 'S', 'O']) {
        v.take(v.len() - 3)
    } else {
        v
    }
}

/// The name an extension is matched and shown by: trimmed, without the
/// `php_` / `.dll` decoration, in ASCII lower case. `curl`, `php_curl` and
/// `php_curl.dll` all have the name `curl`.
pub open spec fn normalized(value: Seq<char>) -> Seq<char> {
    lower(strip_library_suffix(strip_php_prefix(trim(value))))
}

/// A character allowed in an extension name.
pub open spec fn is_name_char(c: char) -> bool {
    is_alnum(c) || c == '_' || c == '-' || c == '.'
}

/// A plausible extension name: 1 to 128 bytes of ASCII letters, digits,
/// `_`, `-` and `.`. Nothing else is ever written into `php.ini`, so no
/// crafted name can inject a line or a section.
pub open spec fn is_safe_name(name: &str) -> bool {
    &&& name@.len() > 0
    &&& name.spec_bytes().len() <= 128
    &&& forall|i: int| 0 <= i < name@.len() ==> is_name_char(#[trigger] name@[i])
}

/// The characters of a string literal.
fn lit(s: &str) -> (v: Vec<char>)
    ensures
        v@ == s@,
{
    chars_of(s)
}

/// `normalized` of the characters `v[lo..hi]`.
pub fn normalize_range(v: &[char], lo: usize, hi: usize) -> (r: Vec<char>)
    requires
        lo <= hi <= v.len(),
    ensures
        r@ == normalized(v@.subrange(lo as int, hi as int)),
{
    proof {
        reveal_strlit("php_");
        reveal_strlit("PHP_");
        reveal_strlit(".dll");
        reveal_strlit(".DLL");
        reveal_strlit(".so");
        reveal_strlit(".SO");
    }
    let ghost orig = v@.subrange(lo as int, hi as int);
    let su = lit(".SO");
    assert(su@ =~= seq!['.', 'S', 'O']);
    let sl = lit(".so");
    assert(sl@ =~= seq!['.', 's', 'o']);
    let du = lit(".DLL");
    assert(du@ =~= seq!['.', 'D', 'L', 'L']);
    let dl = lit(".dll");
    assert(dl@ =~= seq!['.', 'd', 'l', 'l']);
    let pu = lit("PHP_");
    assert(pu@ =~= php_upper());
    let pl = lit("php_");
    assert(pl@ =~= php_lower());
    let (a, b) = trim_bounds(v, lo, hi);
    let ghost t = v@.subrange(a as int, b as int);
    let mut a2 = a;
    if starts_with_at(v, a, b, pl.as_slice()) || starts_with_at(
        v,
        a,
        b,
        pu.as_slice(),
    ) {
        a2 = a + 4;
        assert(t.skip(4) =~= v@.subrange(a2 as int, b as int));
    }
    assert(v@.subrange(a2 as int, b as int) == strip_php_prefix(t));
    let ghost p = v@.subrange(a2 as int, b as int);
    let mut b2 = b;
    if ends_with_at(v, a2, b, dl.as_slice()) || ends_with_at(
        v,
        a2,
        b,
        du.as_slice(),
    ) {
        b2 = b - 4;
        assert(p.take(p.len() - 4) =~= v@.subrange(a2 as int, b2 as int));
    } else if ends_with_at(v, a2, b, sl.as_slice()) || ends_with_at(
        v,
        a2,
        b,
        su.as_slice(),
    ) {
        b2 = b - 3;
        assert(p.take(p.len() - 3) =~= v@.subrange(a2 as int, b2 as int));
    }
    assert(v@.subrange(a2 as int, b2 as int) == strip_library_suffix(p));
    let part = sub_chars(v, a2, b2);
    lower_chars(part.as_slice())
}

/// The name `value` is matched by (see `normalized`).
pub fn normalize(value: &str) -> (r: String)
    ensures
        r@ == normalized(value@),
{
    let v = chars_of(value);
    assert(v@.subrange(0, v@.len() as int) == v@);
    let n = normalize_range(v.as_slice(), 0, v.len());
    string_of(n.as_slice())
}

/// Whether `name` may be written into `php.ini` (see `is_safe_name`).
pub fn is_safe_extension_name(name: &str) -> (b: bool)
    ensures
        b == is_safe_name(name),
{
    let v = chars_of(name);
    if v.len() == 0 {
        return false;
    }
    for i in 0..v.len()
        invariant
            v@ == name@,
            forall|m: int| 0 <= m < i ==> is_name_char(#[trigger] v@[m]),
    {
        let c = v[i];
        let ok = ('a' <= c && c <= 'z') || ('A' <= c && c <= 'Z') || ('0' <= c && c <= '9')
            || c == '_' || c == '-' || c == '.';
        if !ok {
            return false;
        }
    }
    assert(forall|m: int| 0 <= m < name@.len() ==> is_name_char(#[trigger] name@[m]));
    proof {
        assert(vstd::utf8::is_ascii_chars(name@));
        vstd::string::is_ascii_spec_bytes(name);
    }
    v.len() <= 128
}

/// One `extension=`/`zend_extension=` line of `php.ini`, enabled or
/// commented out.
#[derive(Debug, Clone)]
pub struct ExtensionStatus {
    /// The value exactly as written in php.ini, e.g. "curl" or "php_curl.dll".
    pub raw_value: String,
    /// Normalized name used for matching/display, e.g. "curl".
    pub name: String,
    pub enabled: bool,
    pub zend: bool,
}

/// What an `ExtensionStatus` holds, as character sequences.
pub struct ExtensionView {
    pub raw_value: Seq<char>,
    pub name: Seq<char>,
    pub enabled: bool,
    pub zend: bool,
}

impl View for ExtensionStatus {
    type V = ExtensionView;

    open spec fn view(&self) -> ExtensionView {
        ExtensionView {
            raw_value: self.raw_value@,
            name: self.name@,
            enabled: self.enabled,
            zend: self.zend,
        }
    }
}

/// `zend_extension=`
pub open spec fn zend_key() -> Seq<char> {
    seq!['z', 'e', 'n', 'd', '_', 'e', 'x', 't', 'e', 'n', 's', 'i', 'o', 'n', '=']
}

/// `extension=`
pub open spec fn ext_key() -> Seq<char> {
    seq!['e', 'x', 't', 'e', 'n', 's', 'i', 'o', 'n', '=']
}

/// Whether a line is live (not commented out with `;`), and what follows
/// the comment marker, trimmed.
pub open spec fn line_state(line: Seq<char>) -> (bool, Seq<char>) {
    let t = trim(line);
    if t.len() > 0 && t[0] == ';' {
        (false, trim_start(t.drop_first()))
    } else {
        (true, t)
    }
}

/// For an `extension=`/`zend_extension=` line: whether it is enabled,
/// whether it is a Zend extension, and the text after the `=`.
pub open spec fn line_entry(line: Seq<char>) -> Option<(bool, bool, Seq<char>)> {
    let (enabled, body) = line_state(line);
    if has_prefix(body, zend_key()) {
        Some((enabled, true, body.skip(15)))
    } else if has_prefix(body, ext_key()) {
        Some((enabled, false, body.skip(10)))
    } else {
        None
    }
}

/// The listing entry for one line, if it configures an extension with a
/// non-empty value.
pub open spec fn status_of(line: Seq<char>) -> Option<ExtensionView> {
    match line_entry(line) {
        Some((enabled, zend, rest)) => {
            let raw = trim(rest);
            if raw.len() == 0 {
                None
            } else {
                Some(ExtensionView { raw_value: raw, name: normalized(raw), enabled, zend })
            }
        },
        None => None,
    }
}

/// The listing entries of `lines`, in file order.
pub open spec fn configured(lines: Seq<Seq<char>>) -> Seq<ExtensionView>
    decreases lines.len(),
{
    if lines.len() == 0 {
        seq![]
    } else {
        let prev = configured(lines.drop_last());
        match status_of(lines.last()) {
            Some(st) => prev.push(st),
            None => prev,
        }
    }
}

/// `line_entry` of `line`, with the value given as a range of `line`.
fn parse_entry(line: &[char]) -> (r: Option<(bool, bool, usize, usize)>)
    ensures
        match r {
            Some((en, z, lo, hi)) => lo <= hi <= line.len() && line_entry(line@) == Some(
                (en, z, line@.subrange(lo as int, hi as int)),
            ),
            None => line_entry(line@) is None,
        },
{
    let zk = lit("zend_extension=");
    let ek = lit("extension=");
    proof {
        reveal_strlit("zend_extension=");
        reveal_strlit("extension=");
        assert(zk@ =~= zend_key());
        assert(ek@ =~= ext_key());
    }
    assert(line@.subrange(0, line@.len() as int) == line@);
    let (a, b) = trim_bounds(line, 0, line.len());
    let ghost t = line@.subrange(a as int, b as int);
    let mut enabled = true;
    let mut c = a;
    if a < b && line[a] == ';' {
        assert(t.drop_first() == line@.subrange(a + 1, b as int));
        c = skip_ws(line, a + 1, b);
        enabled = false;
    }
    assert(line_state(line@) == (enabled, line@.subrange(c as int, b as int)));
    let ghost body = line@.subrange(c as int, b as int);
    if starts_with_at(line, c, b, zk.as_slice()) {
        assert(body.skip(15) == line@.subrange(c + 15, b as int));
        Some((enabled, true, c + 15, b))
    } else if starts_with_at(line, c, b, ek.as_slice()) {
        assert(body.skip(10) == line@.subrange(c + 10, b as int));
        Some((enabled, false, c + 10, b))
    } else {
        None
    }
}

/// Every `extension=`/`zend_extension=` line (enabled or commented out)
/// of the `php.ini` text `ini_text`, in file order.
pub fn list_configured(ini_text: &str) -> (r: Vec<ExtensionStatus>)
    ensures
        r@.map_values(|s: ExtensionStatus| s@) == configured(lines_of(ini_text@)),
{
    let text = chars_of(ini_text);
    let (lines, _) = split_lines(text.as_slice());
    let ghost ls = views(lines@);
    let mut out: Vec<ExtensionStatus> = Vec::new();
    for i in 0..lines.len()
        invariant
            ls == views(lines@),
            out@.map_values(|s: ExtensionStatus| s@) == configured(ls.take(i as int)),
    {
        assert(ls.take(i + 1).drop_last() =~= ls.take(i as int));
        let ghost prev = out@.map_values(|s: ExtensionStatus| s@);
        let line = &lines[i];
        if let Some((enabled, zend, lo, hi)) = parse_entry(line.as_slice()) {
            let (a, b) = trim_bounds(line.as_slice(), lo, hi);
            if a < b {
                let raw = sub_chars(line.as_slice(), a, b);
                assert(raw@.subrange(0, raw@.len() as int) == raw@);
                let name = normalize_range(raw.as_slice(), 0, raw.len());
                out.push(
                    ExtensionStatus {
                        raw_value: string_of(raw.as_slice()),
                        name: string_of(name.as_slice()),
                        enabled,
                        zend,
                    },
                );
                assert(out@.map_values(|s: ExtensionStatus| s@) =~= prev.push(
                    status_of(ls[i as int]).unwrap(),
                ));
            }
        }
    }
    assert(ls.take(lines.len() as int) =~= ls);
    out
}

/// What an enable/disable request did, for reporting back to the user.
#[derive(Debug, Clone, Copy, PartialEq, Eq, Structural)]
pub enum ToggleOutcome {
    Changed,
    AlreadyInThatState,
    AddedNewLine,
    NotAvailable,
}

/// The result of an enable/disable request: what happened, and the new
/// `php.ini` text when the file has to be rewritten.
pub struct IniEdit {
    pub outcome: ToggleOutcome,
    pub new_text: Option<String>,
}

/// The line configures an extension whose value normalizes to `target`.
pub open spec fn line_matches(line: Seq<char>, target: Seq<char>) -> bool {
    match line_entry(line) {
        Some((_, _, rest)) => normalized(rest) == target,
        None => false,
    }
}

/// `lines[i]` is the first line that matches `target`.
pub open spec fn is_first_match(lines: Seq<Seq<char>>, target: Seq<char>, i: int) -> bool {
    &&& 0 <= i < lines.len()
    &&& line_matches(lines[i], target)
    &&& forall|j: int| 0 <= j < i ==> !line_matches(#[trigger] lines[j], target)
}

/// `line` switched on (one leading `;` dropped, with one space after it)
/// or off (a `;` put in front).
pub open spec fn toggled_line(line: Seq<char>, enabled: bool) -> Seq<char> {
    if enabled {
        let w = trim_start(line);
        let w2 = if w.len() > 0 && w[0] == ';' {
            w.drop_first()
        } else {
            w
        };
        if w2.len() > 0 && w2[0] == ' ' {
            w2.drop_first()
        } else {
            w2
        }
    } else {
        seq![';'] + line
    }
}

/// Some file in `names` has a stem that normalizes to `target`.
pub open spec fn stem_matches(names: Seq<Seq<char>>, target: Seq<char>) -> bool {
    exists|k: int| 0 <= k < names.len() && normalized(stem_ext(#[trigger] names[k]).0) == target
}

/// The texts of an optional list of file names.
pub open spec fn names_view(names: Option<Vec<String>>) -> Option<Seq<Seq<char>>> {
    match names {
        Some(v) => Some(v@.map_values(|s: String| s@)),
        None => None,
    }
}

/// What enabling (or disabling) the extension `name` does to `lines`:
/// the outcome, and the new lines when they change. `ext_files` lists the
/// files of the install's `ext/` directory, if it has one.
pub open spec fn toggle_plan(
    lines: Seq<Seq<char>>,
    name: Seq<char>,
    enabled: bool,
    ext_files: Option<Seq<Seq<char>>>,
) -> (ToggleOutcome, Option<Seq<Seq<char>>>) {
    let target = normalized(name);
    if exists|i: int| is_first_match(lines, target, i) {
        let i = choose|i: int| is_first_match(lines, target, i);
        if line_state(lines[i]).0 == enabled {
            (ToggleOutcome::AlreadyInThatState, None)
        } else {
            (ToggleOutcome::Changed, Some(lines.update(i, toggled_line(lines[i], enabled))))
        }
    } else if !enabled {
        (ToggleOutcome::AlreadyInThatState, None)
    } else if ext_files matches Some(files) && !stem_matches(files, target) {
        (ToggleOutcome::NotAvailable, None)
    } else {
        (ToggleOutcome::AddedNewLine, Some(lines.push(ext_key() + name)))
    }
}

/// The message for a name refused by `is_safe_name`.
pub open spec fn invalid_name_message(name: Seq<char>) -> Seq<char> {
    seq!['\''] + name + "' isn't a valid extension name (letters, digits, '_', '-', '.' only)"@
}

/// `line` switched on or off (see `toggled_line`).
#[verifier::spinoff_prover]
#[verifier::rlimit(30)]
fn toggle_line(line: &[char], enabled: bool) -> (r: Vec<char>)
    ensures
        r@ == toggled_line(line@, enabled),
{
    if enabled {
        assert(line@.subrange(0, line@.len() as int) == line@);
        let mut w = skip_ws(line, 0, line.len());
        let ghost t = line@.subrange(w as int, line@.len() as int);
        if w < line.len() && line[w] == ';' {
            assert(t.drop_first() == line@.subrange(w + 1, line@.len() as int));
            w = w + 1;
        }
        let ghost t2 = line@.subrange(w as int, line@.len() as int);
        if w < line.len() && line[w] == ' ' {
            assert(t2.drop_first() == line@.subrange(w + 1, line@.len() as int));
            w = w + 1;
        }
        sub_chars(line, w, line.len())
    } else {
        let mut r: Vec<char> = Vec::new();
        r.push(';');
        let mut k: usize = 0;
        while k < line.len()
            invariant
                k <= line.len(),
                r@ == seq![';'] + line@.take(k as int),
            decreases line.len() - k,
        {
            r.push(line[k]);
            assert(line@.take(k + 1) == line@.take(k as int).push(line@[k as int]));
            k = k + 1;
        }
        assert(line@.take(line.len() as int) == line@);
        r
    }
}

/// Whether some file in `files` has a stem that normalizes to `target`.
fn any_stem_matches(files: &Vec<String>, target: &[char]) -> (b: bool)
    ensures
        b == stem_matches(files@.map_values(|s: String| s@), target@),
{
    let ghost names = files@.map_values(|s: String| s@);
    for k in 0..files.len()
        invariant
            names == files@.map_values(|s: String| s@),
            forall|m: int| 0 <= m < k ==> normalized(stem_ext(#[trigger] names[m]).0) != target@,
    {
        let name = chars_of(files[k].as_str());
        let (stem, _) = stem_and_extension(name.as_slice());
        assert(stem@.subrange(0, stem@.len() as int) == stem@);
        let n = normalize_range(stem.as_slice(), 0, stem.len());
        if chars_eq(n.as_slice(), target) {
            assert(normalized(stem_ext(names[k as int]).0) == target@);
            return true;
        }
    }
    false
}

/// The refusal of a name that may not be written into `php.ini`: `Ok`
/// exactly when `is_safe_name(ext_name)`.
pub fn check_extension_name(ext_name: &str) -> (r: Result<(), LauncherError>)
    ensures
        r is Ok <==> is_safe_name(ext_name),
        !is_safe_name(ext_name) ==> (r matches Err(LauncherError::Extraction(m)) && m@
            == invalid_name_message(ext_name@)),
{
    if !is_safe_extension_name(ext_name) {
        let mut m = String::new();
        crate::text::push_char(&mut m, '\'');
        push_str(&mut m, ext_name);
        push_str(&mut m, "' isn't a valid extension name (letters, digits, '_', '-', '.' only)");
        return Err(LauncherError::Extraction(m));
    }
    Ok(())
}

/// Enables (`enabled = true`) or disables the extension `ext_name` in the
/// `php.ini` text `ini_text`. The first line that configures it is
/// uncommented or commented out; if no line mentions it, enabling appends
/// a fresh `extension=<ext_name>` line, unless `ext_dir_files` (the files
/// of the install's `ext/` directory, when it has one) holds no file for
/// it. A name that is not `is_safe_name` is refused before anything else.
pub fn set_enabled(
    ini_text: &str,
    ext_dir_files: &Option<Vec<String>>,
    ext_name: &str,
    enabled: bool,
) -> (r: Result<IniEdit, LauncherError>)
    ensures
        !is_safe_name(ext_name) ==> (r matches Err(LauncherError::Extraction(m)) && m@
            == invalid_name_message(ext_name@)),
        is_safe_name(ext_name) ==> (r matches Ok(e) && {
            let plan = toggle_plan(
                lines_of(ini_text@),
                ext_name@,
                enabled,
                names_view(*ext_dir_files),
            );
            &&& e.outcome == plan.0
            &&& match plan.1 {
                Some(ls) => e.new_text matches Some(t) && t@ == joined_lines(
                    ls,
                    line_sep(has_crlf(ini_text@)),
                ),
                None => e.new_text is None,
            }
        }),
{
    if let Err(e) = check_extension_name(ext_name) {
        return Err(e);
    }
    let name_chars = chars_of(ext_name);
    assert(name_chars@.subrange(0, name_chars@.len() as int) == name_chars@);
    let target = normalize_range(name_chars.as_slice(), 0, name_chars.len());
    let text = chars_of(ini_text);
    let (mut lines, crlf) = split_lines(text.as_slice());
    let ghost ls = views(lines@);
    let n_lines = lines.len();
    for i in 0..n_lines
        invariant
            n_lines == lines.len(),
            is_safe_name(ext_name),
            ls == views(lines@),
            ls == lines_of(ini_text@),
            crlf == has_crlf(ini_text@),
            target@ == normalized(ext_name@),
            forall|j: int| 0 <= j < i ==> !line_matches(#[trigger] ls[j], target@),
    {
        if let Some((en, _, lo, hi)) = parse_entry(lines[i].as_slice()) {
            let n = normalize_range(lines[i].as_slice(), lo, hi);
            if chars_eq(n.as_slice(), target.as_slice()) {
                assert(is_first_match(ls, target@, i as int));
                assert forall|k: int| is_first_match(ls, target@, k) implies k == i by {
                    if k < i {
                        assert(!line_matches(ls[k], target@));
                    } else if k > i {
                        assert(!line_matches(ls[i as int], target@));
                    }
                }
                if en == enabled {
                    return Ok(IniEdit { outcome: ToggleOutcome::AlreadyInThatState, new_text: None });
                }
                let new_line = toggle_line(lines[i].as_slice(), enabled);
                lines.set(i, new_line);
                assert(views(lines@) =~= ls.update(
                    i as int,
                    toggled_line(ls[i as int], enabled),
                ));
                let out = join_lines(&lines, crlf);
                return Ok(IniEdit { outcome: ToggleOutcome::Changed, new_text: Some(out) });
            }
        }
    }
    assert(!exists|i: int| is_first_match(ls, target@, i));
    if !enabled {
        return Ok(IniEdit { outcome: ToggleOutcome::AlreadyInThatState, new_text: None });
    }
    if let Some(files) = ext_dir_files {
        if !any_stem_matches(files, target.as_slice()) {
            return Ok(IniEdit { outcome: ToggleOutcome::NotAvailable, new_text: None });
        }
    }
    let mut new_line = lit("extension=");
    proof {
        reveal_strlit("extension=");
        assert(new_line@ =~= ext_key());
    }
    let ghost before = new_line@;
    for k in 0..name_chars.len()
        invariant
            new_line@ == before + name_chars@.take(k as int),
    {
        new_line.push(name_chars[k]);
        assert(name_chars@.take(k + 1) == name_chars@.take(k as int).push(name_chars@[k as int]));
    }
    assert(name_chars@.take(name_chars.len() as int) == name_chars@);
    lines.push(new_line);
    assert(views(lines@) =~= ls.push(ext_key() + ext_name@));
    let out = join_lines(&lines, crlf);
    Ok(IniEdit { outcome: ToggleOutcome::AddedNewLine, new_text: Some(out) })
}

/// An extension known only because a matching DLL exists in `ext/`, not
/// because php.ini mentions it.
#[derive(Debug, Clone)]
pub struct AvailableExtension {
    pub name: String,
}

/// The names of a list of available extensions.
pub open spec fn available_names(v: Seq<AvailableExtension>) -> Seq<Seq<char>> {
    v.map_values(|a: AvailableExtension| a.name@)
}

/// The names of the listing entries.
pub open spec fn configured_names(lines: Seq<Seq<char>>) -> Seq<Seq<char>> {
    configured(lines).map_values(|e: ExtensionView| e.name)
}

/// Whether a file stem is decorated as a PHP extension: `php_` (or
/// `PHP_`) once surrounding whitespace is trimmed.
pub open spec fn php_decorated(stem: Seq<char>) -> bool {
    has_prefix(trim(stem), php_lower()) || has_prefix(trim(stem), php_upper())
}

/// For a file of `ext/`: the extension name it offers, if it is a
/// `php_<name>.dll` (the extension in any case) whose normalized stem
/// php.ini does not configure. Other DLLs there (`libssl.dll`, ...) are
/// libraries the extensions load, not extensions.
pub open spec fn offered_name(file: Seq<char>, configured: Seq<Seq<char>>) -> Option<Seq<char>> {
    let (stem, ext) = stem_ext(file);
    if ext matches Some(e) && lower(e) == seq!['d', 'l', 'l'] && php_decorated(stem) {
        let n = normalized(stem);
        if configured.contains(n) {
            None
        } else {
            Some(n)
        }
    } else {
        None
    }
}

/// Whether `stem` is decorated as a PHP extension (see `php_decorated`).
fn is_php_decorated(stem: &[char]) -> (b: bool)
    ensures
        b == php_decorated(stem@),
{
    proof {
        reveal_strlit("php_");
        reveal_strlit("PHP_");
    }
    let pl = lit("php_");
    assert(pl@ =~= php_lower());
    let pu = lit("PHP_");
    assert(pu@ =~= php_upper());
    let (a, b) = trim_bounds(stem, 0, stem.len());
    assert(stem@.subrange(0, stem@.len() as int) == stem@);
    starts_with_at(stem, a, b, pl.as_slice()) || starts_with_at(stem, a, b, pu.as_slice())
}

/// Whether `name` is among the names of `list`.
fn contains_name(list: &Vec<ExtensionStatus>, name: &[char]) -> (b: bool)
    ensures
        b == list@.map_values(|e: ExtensionStatus| e@.name).contains(name@),
{
    let ghost names = list@.map_values(|e: ExtensionStatus| e@.name);
    for k in 0..list.len()
        invariant
            names == list@.map_values(|e: ExtensionStatus| e@.name),
            forall|m: int| 0 <= m < k ==> names[m] != name@,
    {
        let n = chars_of(list[k].name.as_str());
        if chars_eq(n.as_slice(), name) {
            assert(names[k as int] == name@);
            return true;
        }
    }
    false
}

/// The extensions that have a `php_<name>.dll` among `ext_dir_files` (the
/// file names of the install's `ext/` directory, `None` when it cannot be
/// read) but are not mentioned in the `php.ini` text at all, enabled or
/// disabled: sorted by name, each once. A DLL without the `php_` (or
/// `PHP_`) decoration is never offered (see `offered_name`).
pub fn list_available_unconfigured(
    ini_text: &str,
    ext_dir_files: &Option<Vec<String>>,
) -> (r: Vec<AvailableExtension>)
    ensures
        strictly_sorted(available_names(r@)),
        forall|n: Seq<char>|
            #![trigger available_names(r@).contains(n)]
            available_names(r@).contains(n) <==> match ext_dir_files {
                Some(files) => exists|k: int|
                    0 <= k < files.len() && offered_name(
                        #[trigger] files@[k]@,
                        configured_names(lines_of(ini_text@)),
                    ) == Some(n),
                None => false,
            },
{
    let configured = list_configured(ini_text);
    let ghost cn = configured_names(lines_of(ini_text@));
    assert(configured@.map_values(|e: ExtensionStatus| e@.name) =~= cn);
    let mut sorted: Vec<Vec<char>> = Vec::new();
    if let Some(files) = ext_dir_files {
        let dll = lit("dll");
        proof {
            reveal_strlit("dll");
            assert(dll@ =~= seq!['d', 'l', 'l']);
        }
        for k in 0..files.len()
            invariant
                configured@.map_values(|e: ExtensionStatus| e@.name) == cn,
                dll@ == seq!['d', 'l', 'l'],
                strictly_sorted(views(sorted@)),
                forall|n: Seq<char>|
                    #![trigger views(sorted@).contains(n)]
                    views(sorted@).contains(n) <==> exists|m: int|
                        0 <= m < k && offered_name(#[trigger] files@[m]@, cn) == Some(n),
        {
            let name = chars_of(files[k].as_str());
            let (stem, ext) = stem_and_extension(name.as_slice());
            let ghost before = views(sorted@);
            let mut offered: Option<Vec<char>> = None;
            if let Some(e) = ext {
                let le = lower_chars(e.as_slice());
                assert(stem@.subrange(0, stem@.len() as int) == stem@);
                if chars_eq(le.as_slice(), dll.as_slice()) && is_php_decorated(stem.as_slice()) {
                    let n = normalize_range(stem.as_slice(), 0, stem.len());
                    if !contains_name(&configured, n.as_slice()) {
                        offered = Some(n);
                    }
                }
            }
            assert(match offered {
                Some(o) => offered_name(files@[k as int]@, cn) == Some(o@),
                None => offered_name(files@[k as int]@, cn) is None,
            });
            if let Some(o) = offered {
                let ghost ov = o@;
                insert_sorted_unique(&mut sorted, o);
                assert forall|n: Seq<char>| #[trigger] views(sorted@).contains(n) <==> exists|m: int|
                    0 <= m < k + 1 && offered_name(#[trigger] files@[m]@, cn) == Some(n) by {
                    if n == ov {
                        assert(offered_name(files@[k as int]@, cn) == Some(n));
                    }
                    if exists|m: int| 0 <= m < k + 1 && offered_name(#[trigger] files@[m]@, cn) == Some(n) {
                        let m = choose|m: int| 0 <= m < k + 1 && offered_name(#[trigger] files@[m]@, cn) == Some(n);
                        if m < k {
                            assert(before.contains(n));
                        }
                    }
                }
            } else {
                assert forall|n: Seq<char>| #[trigger] views(sorted@).contains(n) <==> exists|m: int|
                    0 <= m < k + 1 && offered_name(#[trigger] files@[m]@, cn) == Some(n) by {
                    if exists|m: int| 0 <= m < k + 1 && offered_name(#[trigger] files@[m]@, cn) == Some(n) {
                        let m = choose|m: int| 0 <= m < k + 1 && offered_name(#[trigger] files@[m]@, cn) == Some(n);
                        assert(m != k);
                    }
                }
            }
        }
    }
    let mut out: Vec<AvailableExtension> = Vec::new();
    for k in 0..sorted.len()
        invariant
            available_names(out@) == views(sorted@).take(k as int),
    {
        let ghost prev = available_names(out@);
        let nm = string_of(sorted[k].as_slice());
        let ghost nv = nm@;
        out.push(AvailableExtension { name: nm });
        assert(available_names(out@) =~= prev.push(nv));
        assert(views(sorted@).take(k + 1) =~= views(sorted@).take(k as int).push(nv));
    }
    assert(views(sorted@).take(sorted.len() as int) =~= views(sorted@));
    out
}


/// A name made only of extension-name characters, as `is_safe_name`
/// requires.
pub open spec fn name_chars_ok(n: Seq<char>) -> bool {
    n.len() > 0 && forall|i: int| 0 <= i < n.len() ==> is_name_char(#[trigger] n[i])
}

/// Switching a commented-out configuring line on keeps what it configures.
proof fn lemma_enable_line(line: Seq<char>, zend: bool, rest: Seq<char>)
    requires
        line_entry(line) == Some((false, zend, rest)),
    ensures
        line_entry(toggled_line(line, true)) == Some((true, zend, rest)),
{
    let w = trim_start(line);
    let t = trim(line);
    let body = line_state(line).1;
    lemma_trim_end_last(w);
    assert(t.len() > 0 && t[0] == ';');
    assert(w[0] == ';');
    let w2 = w.drop_first();
    let h = seq![';'];
    assert(w =~= h + w2);
    assert(body.len() >= 10);
    if trim_end(w2).len() == 0 {
        lemma_trim_end_blank(h, w2);
        assert(h.drop_last() =~= Seq::<char>::empty());
        assert(trim_end(h) == h);
        assert(t.drop_first() =~= Seq::<char>::empty());
        assert(false);
    }
    lemma_trim_end_concat(h, w2);
    assert(t.drop_first() =~= trim_end(w2));
    lemma_trim_commutes(w2);
    let w3 = if w2.len() > 0 && w2[0] == ' ' {
        w2.drop_first()
    } else {
        w2
    };
    assert(toggled_line(line, true) == w3);
    assert(trim_start(w3) == trim_start(w2));
    assert(trim(w3) == body);
    assert(body[0] == 'e' || body[0] == 'z');
    assert(line_state(w3) == (true, body));
}

/// Commenting out a live configuring line keeps what it configures.
proof fn lemma_disable_line(line: Seq<char>, zend: bool, rest: Seq<char>)
    requires
        line_entry(line) == Some((true, zend, rest)),
    ensures
        line_entry(toggled_line(line, false)) == Some((false, zend, rest)),
{
    let t = trim(line);
    let x = seq![';'] + line;
    assert(t.len() >= 10);
    assert(t[0] == 'e' || t[0] == 'z');
    lemma_trim_commutes(line);
    lemma_trim_start_first(trim_end(line));
    lemma_trim_end_concat(seq![';'], line);
    assert(x[0] == ';');
    assert(trim_start(x) == x);
    let t2 = seq![';'] + trim_end(line);
    assert(trim(x) == t2);
    assert(t2.drop_first() =~= trim_end(line));
    assert(line_state(x) == (false, t));
}

/// Switching a line that configures an extension on or off changes its
/// state only: the new line configures the same extension, with the same
/// kind and value, in the requested state.
pub proof fn law_toggled_line_entry(line: Seq<char>, enabled: bool, zend: bool, rest: Seq<char>)
    requires
        line_entry(line) == Some((!enabled, zend, rest)),
    ensures
        line_entry(toggled_line(line, enabled)) == Some((enabled, zend, rest)),
{
    if enabled {
        lemma_enable_line(line, zend, rest);
    } else {
        lemma_disable_line(line, zend, rest);
    }
}

/// Commenting out a line that has no leading whitespace and switching it on
/// again gives the line back as it was.
pub proof fn law_disable_enable_restores(line: Seq<char>)
    requires
        line.len() == 0 || !is_ws(line[0]),
    ensures
        toggled_line(toggled_line(line, false), true) == line,
{
    let x = seq![';'] + line;
    assert(x[0] == ';');
    assert(trim_start(x) == x);
    assert(x.drop_first() =~= line);
}

/// Whether the extension `target` is enabled according to the first line
/// of `lines` that configures it; `None` when no line does.
pub open spec fn first_state(lines: Seq<Seq<char>>, target: Seq<char>) -> Option<bool> {
    if exists|i: int| is_first_match(lines, target, i) {
        Some(line_state(lines[choose|i: int| is_first_match(lines, target, i)]).0)
    } else {
        None
    }
}

/// If some line matches, a first one does.
proof fn lemma_first_match_exists(lines: Seq<Seq<char>>, target: Seq<char>, j: int)
    requires
        0 <= j < lines.len(),
        line_matches(lines[j], target),
    ensures
        exists|i: int| is_first_match(lines, target, i),
    decreases j,
{
    if exists|k: int| 0 <= k < j && line_matches(#[trigger] lines[k], target) {
        let k = choose|k: int| 0 <= k < j && line_matches(#[trigger] lines[k], target);
        lemma_first_match_exists(lines, target, k);
    } else {
        assert(is_first_match(lines, target, j));
    }
}

/// There is at most one first match.
proof fn lemma_first_match_unique(lines: Seq<Seq<char>>, target: Seq<char>, i: int, k: int)
    requires
        is_first_match(lines, target, i),
        is_first_match(lines, target, k),
    ensures
        i == k,
{
    if i < k {
        assert(!line_matches(lines[i], target));
    } else if k < i {
        assert(!line_matches(lines[k], target));
    }
}

/// What an enable or disable request does to the lines of `php.ini`:
/// when the file is rewritten, the first line configuring the extension is
/// then in the requested state, and the same request on the new lines
/// changes nothing (reports `AlreadyInThatState`); when a request reports
/// `AlreadyInThatState`, the extension already was in that state (or, to
/// disable, not configured at all).
pub proof fn law_toggle_takes_effect(
    lines: Seq<Seq<char>>,
    name: Seq<char>,
    enabled: bool,
    ext_files: Option<Seq<Seq<char>>>,
)
    requires
        name_chars_ok(name),
    ensures
        ({
            let plan = toggle_plan(lines, name, enabled, ext_files);
            &&& plan.1 matches Some(new_lines) ==> first_state(new_lines, normalized(name)) == Some(
                enabled,
            ) && toggle_plan(new_lines, name, enabled, ext_files).0
                == ToggleOutcome::AlreadyInThatState
            &&& plan.0 == ToggleOutcome::AlreadyInThatState ==> (first_state(lines, normalized(name))
                == Some(enabled) || (first_state(lines, normalized(name)) is None && !enabled))
        }),
{
    let target = normalized(name);
    let plan = toggle_plan(lines, name, enabled, ext_files);
    if exists|i: int| is_first_match(lines, target, i) {
        let i = choose|i: int| is_first_match(lines, target, i);
        if line_state(lines[i]).0 != enabled {
            let new_lines = lines.update(i, toggled_line(lines[i], enabled));
            let (en, z, rest) = line_entry(lines[i]).unwrap();
            assert(en == line_state(lines[i]).0);
            law_toggled_line_entry(lines[i], enabled, z, rest);
            assert(line_matches(new_lines[i], target));
            assert forall|j: int| 0 <= j < i implies !line_matches(#[trigger] new_lines[j], target) by {
                assert(new_lines[j] == lines[j]);
            }
            assert(is_first_match(new_lines, target, i));
            assert forall|k: int| is_first_match(new_lines, target, k) implies k == i by {
                lemma_first_match_unique(new_lines, target, i, k);
            }
            assert(line_state(new_lines[i]).0 == enabled);
        }
    } else {
        if plan.0 == ToggleOutcome::AddedNewLine {
            let x = ext_key() + name;
            let new_lines = lines.push(x);
            assert(x[0] == 'e');
            assert(x.last() == name.last());
            assert(is_name_char(name[name.len() - 1]));
            lemma_trim_fixed(x);
            assert(line_state(x) == (true, x));
            assert(x.take(10) =~= ext_key());
            assert(x.skip(10) =~= name);
            if has_prefix(x, zend_key()) {
                assert(x.take(15)[0] == zend_key()[0]);
            }
            assert(line_entry(x) == Some((true, false, name)));
            let n = lines.len() as int;
            assert(new_lines[n] == x);
            assert forall|j: int| 0 <= j < n implies !line_matches(#[trigger] new_lines[j], target) by {
                assert(new_lines[j] == lines[j]);
                if line_matches(lines[j], target) {
                    lemma_first_match_exists(lines, target, j);
                }
            }
            assert(is_first_match(new_lines, target, n));
            assert forall|k: int| is_first_match(new_lines, target, k) implies k == n by {
                lemma_first_match_unique(new_lines, target, n, k);
            }
        }
    }
}


/// `.dll`
pub open spec fn dll_suffix() -> Seq<char> {
    seq!['.', 'd', 'l', 'l']
}

/// `curl`, `php_curl` and `php_curl.dll` name the same extension: for a bare
/// name (extension-name characters, no `php_`/`PHP_` in front, no library
/// suffix at the end), adding the `php_` prefix, the `.dll` suffix or both
/// leaves its normalized name unchanged.
pub proof fn law_normalized_ignores_decoration(n: Seq<char>)
    requires
        name_chars_ok(n),
        !has_prefix(n, php_lower()),
        !has_prefix(n, php_upper()),
        strip_library_suffix(n) == n,
    ensures
        normalized(php_lower() + n) == normalized(n),
        normalized(n + dll_suffix()) == normalized(n),
        normalized(php_lower() + n + dll_suffix()) == normalized(n),
{
    let a = php_lower() + n;
    let b = n + dll_suffix();
    let c = php_lower() + n + dll_suffix();
    assert(is_name_char(n[0]) && is_name_char(n[n.len() - 1]));
    lemma_trim_fixed(n);
    assert(a[0] == 'p' && a.last() == n.last());
    lemma_trim_fixed(a);
    assert(b[0] == n[0] && b.last() == 'l');
    lemma_trim_fixed(b);
    assert(c[0] == 'p' && c.last() == 'l');
    lemma_trim_fixed(c);
    assert(a.take(4) =~= php_lower());
    assert(a.skip(4) =~= n);
    assert(c.take(4) =~= php_lower());
    assert(c.skip(4) =~= b);
    if has_prefix(b, php_lower()) || has_prefix(b, php_upper()) {
        if n.len() >= 4 {
            assert(b.take(4) =~= n.take(4));
        } else {
            let k = n.len() as int;
            assert(b.take(4)[k] == '.');
        }
    }
    assert(b.take(b.len() - 4) =~= n);
    assert(b.skip(b.len() - 4) =~= dll_suffix());
    assert(has_suffix(b, seq!['.', 'd', 'l', 'l']));
}


/// Trimming the start of `s` drops some first characters of it.
proof fn lemma_trim_start_skip(s: Seq<char>) -> (k: int)
    ensures
        0 <= k <= s.len(),
        trim_start(s) == s.skip(k),
    decreases s.len(),
{
    if s.len() > 0 && is_ws(s[0]) {
        let k1 = lemma_trim_start_skip(s.drop_first());
        assert(s.drop_first().skip(k1) =~= s.skip(k1 + 1));
        k1 + 1
    } else {
        assert(s.skip(0) =~= s);
        0
    }
}

/// Characters dropped from the front of a line keep it free of `\n` and
/// of a trailing `\r`.
proof fn lemma_suffix_shape(l: Seq<char>, k: int)
    requires
        0 <= k <= l.len(),
    ensures
        no_newline(l) ==> no_newline(l.skip(k)),
        no_trailing_cr(l) ==> no_trailing_cr(l.skip(k)),
{
    if no_newline(l) {
        assert forall|m: int| 0 <= m < l.skip(k).len() implies l.skip(k)[m] != '\n' by {
            assert(l.skip(k)[m] == l[k + m]);
        }
    }
    if l.skip(k).len() > 0 {
        assert(l.skip(k).last() == l.last());
    }
}

/// A toggled line keeps the shape of the line it came from: no `\n`, and
/// no trailing `\r` if the line had none.
proof fn lemma_toggled_shape(l: Seq<char>, enabled: bool)
    ensures
        no_newline(l) ==> no_newline(toggled_line(l, enabled)),
        no_trailing_cr(l) ==> no_trailing_cr(toggled_line(l, enabled)),
{
    if enabled {
        let k = lemma_trim_start_skip(l);
        let w = l.skip(k);
        let k2 = if w.len() > 0 && w[0] == ';' { k + 1 } else { k };
        if w.len() > 0 {
            assert(w.drop_first() =~= l.skip(k + 1));
        }
        let w2 = l.skip(k2);
        assert(w2 == if w.len() > 0 && w[0] == ';' { w.drop_first() } else { w });
        let k3 = if w2.len() > 0 && w2[0] == ' ' { k2 + 1 } else { k2 };
        if w2.len() > 0 {
            assert(w2.drop_first() =~= l.skip(k2 + 1));
        }
        assert(toggled_line(l, true) == l.skip(k3));
        lemma_suffix_shape(l, k3);
    } else {
        let x = seq![';'] + l;
        if no_newline(l) {
            assert forall|m: int| 0 <= m < x.len() implies x[m] != '\n' by {
                if m > 0 {
                    assert(x[m] == l[m - 1]);
                }
            }
        }
        if l.len() > 0 {
            assert(x.last() == l.last());
        }
    }
}

/// An enable or disable request on a `php.ini` text, read back: when the
/// request rewrites the file, the new text's lines are exactly the planned
/// lines, the extension's first configuring line among them is in the
/// requested state, and the same request on the new text changes nothing.
/// (A text without `\r\n` that ends in a bare `\r` is left out: its last
/// line loses that `\r` when the file is written back.)
pub proof fn law_set_enabled_reads_back(
    ini: Seq<char>,
    name: Seq<char>,
    enabled: bool,
    ext_files: Option<Seq<Seq<char>>>,
)
    requires
        name_chars_ok(name),
        has_crlf(ini) || no_trailing_cr(ini),
    ensures
        ({
            let plan = toggle_plan(lines_of(ini), name, enabled, ext_files);
            plan.1 matches Some(ls) ==> {
                let t = joined_lines(ls, line_sep(has_crlf(ini)));
                &&& lines_of(t) == ls
                &&& first_state(lines_of(t), normalized(name)) == Some(enabled)
                &&& toggle_plan(lines_of(t), name, enabled, ext_files).0
                    == ToggleOutcome::AlreadyInThatState
            }
        }),
{
    let lines = lines_of(ini);
    let crlf = has_crlf(ini);
    let target = normalized(name);
    lemma_lines_no_newline(ini);
    if !crlf {
        lemma_lines_no_cr(ini);
    }
    law_toggle_takes_effect(lines, name, enabled, ext_files);
    let plan = toggle_plan(lines, name, enabled, ext_files);
    if plan.1 is Some {
        let ls = plan.1.unwrap();
        if exists|i: int| is_first_match(lines, target, i) {
            let i = choose|i: int| is_first_match(lines, target, i);
            lemma_toggled_shape(lines[i], enabled);
            assert(ls == lines.update(i, toggled_line(lines[i], enabled)));
            assert forall|j: int| 0 <= j < ls.len() implies no_newline(#[trigger] ls[j]) && (!crlf
                ==> no_trailing_cr(ls[j])) by {
                if j != i {
                    assert(ls[j] == lines[j]);
                }
            }
        } else {
            let x = ext_key() + name;
            assert(ls == lines.push(x));
            assert forall|m: int| 0 <= m < x.len() implies x[m] != '\n' by {
                if m >= 10 {
                    assert(x[m] == name[m - 10]);
                    assert(is_name_char(name[m - 10]));
                }
            }
            assert(x.last() == name.last());
            assert(is_name_char(name[name.len() - 1]));
            assert forall|j: int| 0 <= j < ls.len() implies no_newline(#[trigger] ls[j]) && (!crlf
                ==> no_trailing_cr(ls[j])) by {
                if j < lines.len() {
                    assert(ls[j] == lines[j]);
                }
            }
        }
        assert forall|j: int, k: int| 0 <= j < ls.len() && 0 <= k < ls[j].len() implies #[trigger] ls[j][k] != '\n' by {
            assert(no_newline(ls[j]));
        }
        assert forall|j: int| 0 <= j < ls.len() && #[trigger] ls[j].len() > 0 && !crlf implies ls[j].last() != '\r' by {
            assert(no_trailing_cr(ls[j]));
        }
        law_lines_roundtrip(ls, crlf);
    }
}

/// The `enabled` of the first entry of `v` named `name`; `None` when no
/// entry has that name.
pub open spec fn first_listed(v: Seq<ExtensionView>, name: Seq<char>) -> Option<bool>
    decreases v.len(),
{
    if v.len() == 0 {
        None
    } else {
        match first_listed(v.drop_last(), name) {
            Some(b) => Some(b),
            None => if v.last().name == name {
                Some(v.last().enabled)
            } else {
                None
            },
        }
    }
}

/// Trimming twice is trimming once.
proof fn lemma_trim_idempotent(s: Seq<char>)
    ensures
        trim(trim(s)) == trim(s),
{
    lemma_trim_start_first(s);
    lemma_trim_end_last(trim_start(s));
    lemma_trim_fixed(trim(s));
}

/// The listing entry of a line carries the name the line is matched by.
proof fn lemma_status_matches(line: Seq<char>, target: Seq<char>)
    requires
        target.len() > 0,
    ensures
        (status_of(line) matches Some(st) && st.name == target) <==> line_matches(line, target),
        line_matches(line, target) ==> status_of(line).unwrap().enabled == line_state(line).0,
{
    match line_entry(line) {
        Some((en, z, rest)) => {
            lemma_trim_idempotent(rest);
            if trim(rest).len() == 0 {
                assert(strip_php_prefix(trim(rest)) == trim(rest));
                assert(strip_library_suffix(trim(rest)) == trim(rest));
                assert(normalized(rest).len() == 0);
            }
        },
        None => {},
    }
}

/// Adding a line at the end changes the first state only where no
/// earlier line configured the extension.
proof fn lemma_first_state_push(ls: Seq<Seq<char>>, l: Seq<char>, t: Seq<char>)
    ensures
        first_state(ls.push(l), t) == match first_state(ls, t) {
            Some(b) => Some(b),
            None => if line_matches(l, t) {
                Some(line_state(l).0)
            } else {
                None
            },
        },
{
    let ls2 = ls.push(l);
    let n = ls.len() as int;
    if exists|i: int| is_first_match(ls, t, i) {
        let i = choose|i: int| is_first_match(ls, t, i);
        assert forall|j: int| 0 <= j < i implies !line_matches(#[trigger] ls2[j], t) by {
            assert(ls2[j] == ls[j]);
        }
        assert(ls2[i] == ls[i]);
        assert(is_first_match(ls2, t, i));
        let k = choose|k: int| is_first_match(ls2, t, k);
        lemma_first_match_unique(ls2, t, i, k);
    } else {
        assert forall|j: int| 0 <= j < n implies !line_matches(#[trigger] ls2[j], t) by {
            assert(ls2[j] == ls[j]);
            if line_matches(ls[j], t) {
                lemma_first_match_exists(ls, t, j);
            }
        }
        if line_matches(l, t) {
            assert(is_first_match(ls2, t, n));
            let k = choose|k: int| is_first_match(ls2, t, k);
            lemma_first_match_unique(ls2, t, n, k);
        } else {
            assert(!exists|k: int| is_first_match(ls2, t, k)) by {
                if exists|k: int| is_first_match(ls2, t, k) {
                    let k = choose|k: int| is_first_match(ls2, t, k);
                    if k == n {
                        assert(ls2[k] == l);
                    }
                }
            }
        }
    }
}

/// The listing and the first configuring line agree on whether an
/// extension (with a non-empty name) is enabled.
proof fn lemma_listing_first_state(ls: Seq<Seq<char>>, t: Seq<char>)
    requires
        t.len() > 0,
    ensures
        first_listed(configured(ls), t) == first_state(ls, t),
    decreases ls.len(),
{
    if ls.len() == 0 {
        assert(!exists|i: int| is_first_match(ls, t, i));
    } else {
        let p = ls.drop_last();
        let l = ls.last();
        lemma_listing_first_state(p, t);
        assert(p.push(l) =~= ls);
        lemma_first_state_push(p, l, t);
        lemma_status_matches(l, t);
        let c = configured(p);
        match status_of(l) {
            Some(st) => {
                assert(c.push(st).drop_last() =~= c);
            },
            None => {},
        }
    }
}

/// A trailing `\r` is whitespace: dropping it leaves the trimmed line.
proof fn lemma_trim_strip_cr(l: Seq<char>)
    ensures
        trim(strip_cr(l)) == trim(l),
{
    if l.len() > 0 && l.last() == '\r' {
        let x = l.drop_last();
        assert(is_ws('\r'));
        assert(trim_end(l) == trim_end(x));
        lemma_trim_commutes(l);
        lemma_trim_commutes(x);
    }
}

/// Lines that trim alike configure the same extensions in the same way.
proof fn lemma_first_state_same_trim(ls: Seq<Seq<char>>, ls2: Seq<Seq<char>>, t: Seq<char>)
    requires
        ls.len() == ls2.len(),
        forall|i: int| 0 <= i < ls.len() ==> trim(#[trigger] ls2[i]) == trim(ls[i]),
    ensures
        first_state(ls2, t) == first_state(ls, t),
{
    assert forall|i: int| 0 <= i < ls.len() implies line_matches(#[trigger] ls2[i], t) == line_matches(
        ls[i],
        t,
    ) && line_state(ls2[i]) == line_state(ls[i]) by {
        assert(trim(ls2[i]) == trim(ls[i]));
    }
    assert forall|i: int| is_first_match(ls2, t, i) <==> is_first_match(ls, t, i) by {
        if 0 <= i < ls.len() {
            assert(line_matches(ls2[i], t) == line_matches(ls[i], t));
            if is_first_match(ls, t, i) {
                assert forall|j: int| 0 <= j < i implies !line_matches(#[trigger] ls2[j], t) by {
                    assert(line_matches(ls2[j], t) == line_matches(ls[j], t));
                }
            }
            if is_first_match(ls2, t, i) {
                assert forall|j: int| 0 <= j < i implies !line_matches(#[trigger] ls[j], t) by {
                    assert(line_matches(ls2[j], t) == line_matches(ls[j], t));
                }
            }
        }
    }
    if exists|i: int| is_first_match(ls, t, i) {
        let i1 = choose|i: int| is_first_match(ls, t, i);
        assert(is_first_match(ls2, t, i1));
        let i2 = choose|i: int| is_first_match(ls2, t, i);
        assert(is_first_match(ls, t, i2));
        lemma_first_match_unique(ls, t, i1, i2);
        assert(line_state(ls2[i2]) == line_state(ls[i2]));
    }
}

/// The lines a request writes hold no line break, and there is one at
/// least.
proof fn lemma_plan_lines_no_newline(
    ini: Seq<char>,
    name: Seq<char>,
    enabled: bool,
    ext_files: Option<Seq<Seq<char>>>,
)
    requires
        name_chars_ok(name),
    ensures
        toggle_plan(lines_of(ini), name, enabled, ext_files).1 matches Some(ls) ==> ls.len() > 0
            && forall|j: int, k: int| 0 <= j < ls.len() && 0 <= k < ls[j].len() ==> #[trigger] ls[j][k] != '\n',
{
    let lines = lines_of(ini);
    let target = normalized(name);
    lemma_lines_no_newline(ini);
    let plan = toggle_plan(lines, name, enabled, ext_files);
    if plan.1 is Some {
        let ls = plan.1.unwrap();
        if exists|i: int| is_first_match(lines, target, i) {
            let i = choose|i: int| is_first_match(lines, target, i);
            lemma_toggled_shape(lines[i], enabled);
            assert(ls == lines.update(i, toggled_line(lines[i], enabled)));
            assert forall|j: int| 0 <= j < ls.len() implies no_newline(#[trigger] ls[j]) by {
                if j != i {
                    assert(ls[j] == lines[j]);
                }
            }
        } else {
            let x = ext_key() + name;
            assert(ls == lines.push(x));
            assert forall|m: int| 0 <= m < x.len() implies x[m] != '\n' by {
                if m >= 10 {
                    assert(x[m] == name[m - 10]);
                    assert(is_name_char(name[m - 10]));
                }
            }
            assert forall|j: int| 0 <= j < ls.len() implies no_newline(#[trigger] ls[j]) by {
                if j < lines.len() {
                    assert(ls[j] == lines[j]);
                }
            }
        }
        assert forall|j: int, k: int| 0 <= j < ls.len() && 0 <= k < ls[j].len() implies #[trigger] ls[j][k] != '\n' by {
            assert(no_newline(ls[j]));
        }
    }
}

/// A request that rewrites `php.ini` shows in its listing: in
/// `list_configured` of the new text, the first entry named like the
/// request is enabled or disabled as requested. This holds of every
/// `php.ini` text, whatever its line endings.
pub proof fn law_toggle_shows_in_listing(
    ini: Seq<char>,
    name: Seq<char>,
    enabled: bool,
    ext_files: Option<Seq<Seq<char>>>,
)
    requires
        name_chars_ok(name),
        normalized(name).len() > 0,
    ensures
        ({
            let plan = toggle_plan(lines_of(ini), name, enabled, ext_files);
            plan.1 matches Some(ls) ==> first_listed(
                configured(lines_of(joined_lines(ls, line_sep(has_crlf(ini))))),
                normalized(name),
            ) == Some(enabled)
        }),
{
    let target = normalized(name);
    law_toggle_takes_effect(lines_of(ini), name, enabled, ext_files);
    lemma_plan_lines_no_newline(ini, name, enabled, ext_files);
    let plan = toggle_plan(lines_of(ini), name, enabled, ext_files);
    if plan.1 is Some {
        let ls = plan.1.unwrap();
        let crlf = has_crlf(ini);
        lemma_lines_read_back(ls, crlf);
        let back = lines_of(joined_lines(ls, line_sep(crlf)));
        assert forall|i: int| 0 <= i < ls.len() implies trim(#[trigger] back[i]) == trim(ls[i]) by {
            lemma_trim_strip_cr(ls[i]);
        }
        lemma_first_state_same_trim(ls, back, target);
        lemma_listing_first_state(back, target);
    }
}

} // verus!
